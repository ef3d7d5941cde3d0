use akash::config::{resolve_override, Config, LogLevel};
use akash::detect::{
    detect_from_env, detect_from_os, detect_from_parent_process, detect_shell, get_shell,
    DetectionSignals, HostOs, ShellEnv,
};
use akash::dialect::{ShellError, ShellType};

fn no_env() -> ShellEnv {
    ShellEnv { shell: None, ps_module_path: false, bash_version: false, zsh_version: false }
}

fn signals(parent: Option<&str>, env: ShellEnv, os: HostOs) -> DetectionSignals {
    DetectionSignals { parent_name: parent.map(|s| s.to_string()), env, os }
}

#[test]
fn parent_zsh_beats_shell_variable_and_os() {
    let env = ShellEnv { shell: Some("/bin/bash".to_string()), ..no_env() };
    assert_eq!(detect_shell(&signals(Some("zsh"), env, HostOs::Windows)), ShellType::Zsh);
    assert_eq!(detect_shell(&signals(Some("-ZSH"), no_env(), HostOs::Linux)), ShellType::Zsh);
}

#[test]
fn parent_names_map_to_dialects() {
    assert_eq!(detect_from_parent_process(&Some("bash".to_string())), Some(ShellType::Bash));
    assert_eq!(detect_from_parent_process(&Some("git-bash.exe".to_string())), Some(ShellType::Bash));
    assert_eq!(detect_from_parent_process(&Some("pwsh.exe".to_string())), Some(ShellType::PowerShell));
    assert_eq!(detect_from_parent_process(&Some("PowerShell".to_string())), Some(ShellType::PowerShell));
    assert_eq!(detect_from_parent_process(&Some("cargo".to_string())), None);
    assert_eq!(detect_from_parent_process(&None), None);
}

#[test]
fn environment_is_checked_in_order() {
    let zsh_shell = ShellEnv { shell: Some("/usr/bin/ZSH".to_string()), ps_module_path: true, ..no_env() };
    assert_eq!(detect_from_env(&zsh_shell), Some(ShellType::Zsh));
    let bash_shell = ShellEnv { shell: Some("/bin/bash".to_string()), ..no_env() };
    assert_eq!(detect_from_env(&bash_shell), Some(ShellType::Bash));
    let ps = ShellEnv { shell: Some("/bin/sh".to_string()), ps_module_path: true, bash_version: true, ..no_env() };
    assert_eq!(detect_from_env(&ps), Some(ShellType::PowerShell));
    let bv = ShellEnv { bash_version: true, zsh_version: true, ..no_env() };
    assert_eq!(detect_from_env(&bv), Some(ShellType::Bash));
    let zv = ShellEnv { zsh_version: true, ..no_env() };
    assert_eq!(detect_from_env(&zv), Some(ShellType::Zsh));
    assert_eq!(detect_from_env(&no_env()), None);
}

#[test]
fn os_fallback() {
    assert_eq!(detect_from_os(HostOs::Windows), ShellType::PowerShell);
    assert_eq!(detect_from_os(HostOs::MacOs), ShellType::Zsh);
    assert_eq!(detect_from_os(HostOs::Linux), ShellType::Bash);
    assert_eq!(detect_from_os(HostOs::Other), ShellType::Bash);
    assert_eq!(HostOs::from_name("macos"), HostOs::MacOs);
    assert_eq!(HostOs::from_name("freebsd"), HostOs::Other);
    assert_eq!(detect_shell(&signals(Some("init"), no_env(), HostOs::MacOs)), ShellType::Zsh);
}

#[test]
fn override_skips_detection() {
    let s = signals(Some("zsh"), no_env(), HostOs::Linux);
    assert_eq!(get_shell(Some(ShellType::PowerShell), &s), ShellType::PowerShell);
    assert_eq!(get_shell(None, &s), ShellType::Zsh);
}

#[test]
fn config_levels_and_override() {
    let mut config = Config::default();
    assert_eq!(config.log_level, "error");
    assert_eq!(config.tracing_level(), LogLevel::Error);
    config.log_level = "WARN".to_string();
    assert_eq!(config.tracing_level(), LogLevel::Warn);
    config.log_level = "Trace".to_string();
    assert_eq!(config.tracing_level(), LogLevel::Trace);
    config.log_level = "verbose".to_string();
    assert_eq!(config.tracing_level(), LogLevel::Error);
    assert_eq!(resolve_override(None, &config), Ok(None));
    config.shell = Some("Zsh".to_string());
    assert_eq!(resolve_override(None, &config), Ok(Some(ShellType::Zsh)));
    assert_eq!(resolve_override(Some(ShellType::Bash), &config), Ok(Some(ShellType::Bash)));
    config.shell = Some("fish".to_string());
    assert_eq!(
        config.shell_override(),
        Err(ShellError::UnsupportedShell("fish".to_string()))
    );
    assert_eq!(
        resolve_override(None, &config),
        Err(ShellError::UnsupportedShell("fish".to_string()))
    );
    assert_eq!(resolve_override(Some(ShellType::Zsh), &config), Ok(Some(ShellType::Zsh)));
}
