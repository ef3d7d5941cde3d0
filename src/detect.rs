//! Choosing a dialect from the signals the environment offers, in a fixed
//! order of trust: the parent process, then environment variables, then the
//! operating system.
use vstd::prelude::*;
use crate::dialect::ShellType;
use crate::text::{contains, lower_of, lowercase, occurs_at, str_contains, str_equals};

verus! {

/// The operating system the program runs on.
#[derive(Debug, Clone, Copy, PartialEq, Eq, Structural)]
pub enum HostOs {
    Windows,
    MacOs,
    Linux,
    Other,
}

/// The operating system named by `name`, as `std::env::consts::OS` spells it.
pub open spec fn os_named(name: Seq<char>) -> HostOs {
    if name == "windows"@ {
        HostOs::Windows
    } else if name == "macos"@ {
        HostOs::MacOs
    } else if name == "linux"@ {
        HostOs::Linux
    } else {
        HostOs::Other
    }
}

impl HostOs {
    /// The operating system named by `name`; any unknown name is `Other`.
    pub fn from_name(name: &str) -> (r: HostOs)
        ensures
            r == os_named(name@),
    {
        if str_equals(name, "windows") {
            HostOs::Windows
        } else if str_equals(name, "macos") {
            HostOs::MacOs
        } else if str_equals(name, "linux") {
            HostOs::Linux
        } else {
            HostOs::Other
        }
    }
}

/// The environment variables that hint at the running shell.
#[derive(Debug, Clone, PartialEq, Eq)]
pub struct ShellEnv {
    /// The value of `SHELL`, when set.
    pub shell: Option<String>,
    /// Whether `PSModulePath` is set.
    pub ps_module_path: bool,
    /// Whether `BASH_VERSION` is set.
    pub bash_version: bool,
    /// Whether `ZSH_VERSION` is set.
    pub zsh_version: bool,
}

/// Everything detection looks at, gathered by the caller.
#[derive(Debug, Clone, PartialEq, Eq)]
pub struct DetectionSignals {
    /// The name of the parent process, when it could be found.
    pub parent_name: Option<String>,
    /// The relevant environment variables.
    pub env: ShellEnv,
    /// The operating system.
    pub os: HostOs,
}

/// The dialect a lower-case parent process name points to.
pub open spec fn parent_signal(lower: Seq<char>) -> Option<ShellType> {
    if contains(lower, "bash"@) || contains(lower, "git-bash"@) {
        Some(ShellType::Bash)
    } else if contains(lower, "zsh"@) {
        Some(ShellType::Zsh)
    } else if contains(lower, "pwsh"@) || contains(lower, "powershell"@) {
        Some(ShellType::PowerShell)
    } else {
        None
    }
}

/// The dialect a lower-case `SHELL` value points to.
pub open spec fn shell_var_signal(lower: Seq<char>) -> Option<ShellType> {
    if contains(lower, "zsh"@) {
        Some(ShellType::Zsh)
    } else if contains(lower, "bash"@) {
        Some(ShellType::Bash)
    } else {
        None
    }
}

/// What the parent process says, if anything.
pub open spec fn parent_detected(parent_name: Option<String>) -> Option<ShellType> {
    match parent_name {
        Some(n) => parent_signal(lower_of(n@)),
        None => None,
    }
}

/// What the environment variables say, if anything.
pub open spec fn env_detected(env: ShellEnv) -> Option<ShellType> {
    let from_shell = match env.shell {
        Some(s) => shell_var_signal(lower_of(s@)),
        None => None,
    };
    if from_shell is Some {
        from_shell
    } else if env.ps_module_path {
        Some(ShellType::PowerShell)
    } else if env.bash_version {
        Some(ShellType::Bash)
    } else if env.zsh_version {
        Some(ShellType::Zsh)
    } else {
        None
    }
}

/// The default dialect of each operating system.
pub open spec fn os_default(os: HostOs) -> ShellType {
    match os {
        HostOs::Windows => ShellType::PowerShell,
        HostOs::MacOs => ShellType::Zsh,
        HostOs::Linux => ShellType::Bash,
        HostOs::Other => ShellType::Bash,
    }
}

/// The detected dialect: the first signal that speaks, in order of trust.
pub open spec fn detected(signals: DetectionSignals) -> ShellType {
    match parent_detected(signals.parent_name) {
        Some(d) => d,
        None => match env_detected(signals.env) {
            Some(d) => d,
            None => os_default(signals.os),
        },
    }
}

/// The dialect named by a parent process name already in lower case.
pub fn shell_from_process_name(lower: &str) -> (r: Option<ShellType>)
    ensures
        r == parent_signal(lower@),
{
    if str_contains(lower, "bash") || str_contains(lower, "git-bash") {
        Some(ShellType::Bash)
    } else if str_contains(lower, "zsh") {
        Some(ShellType::Zsh)
    } else if str_contains(lower, "pwsh") || str_contains(lower, "powershell") {
        Some(ShellType::PowerShell)
    } else {
        None
    }
}

/// The dialect named by a `SHELL` value already in lower case.
pub fn shell_from_shell_var(lower: &str) -> (r: Option<ShellType>)
    ensures
        r == shell_var_signal(lower@),
{
    if str_contains(lower, "zsh") {
        Some(ShellType::Zsh)
    } else if str_contains(lower, "bash") {
        Some(ShellType::Bash)
    } else {
        None
    }
}

/// The dialect the parent process name points to, in any letter case.
pub fn detect_from_parent_process(parent_name: &Option<String>) -> (r: Option<ShellType>)
    ensures
        r == parent_detected(*parent_name),
{
    match parent_name {
        Some(n) => {
            let lower = lowercase(n.as_str());
            shell_from_process_name(lower.as_str())
        },
        None => None,
    }
}

/// The dialect the environment variables point to, checked in order:
/// `SHELL`, `PSModulePath`, `BASH_VERSION`, `ZSH_VERSION`.
pub fn detect_from_env(env: &ShellEnv) -> (r: Option<ShellType>)
    ensures
        r == env_detected(*env),
{
    if let Some(s) = &env.shell {
        let lower = lowercase(s.as_str());
        let found = shell_from_shell_var(lower.as_str());
        if found.is_some() {
            return found;
        }
    }
    if env.ps_module_path {
        Some(ShellType::PowerShell)
    } else if env.bash_version {
        Some(ShellType::Bash)
    } else if env.zsh_version {
        Some(ShellType::Zsh)
    } else {
        None
    }
}

/// The default dialect of the operating system.
pub fn detect_from_os(os: HostOs) -> (r: ShellType)
    ensures
        r == os_default(os),
{
    match os {
        HostOs::Windows => ShellType::PowerShell,
        HostOs::MacOs => ShellType::Zsh,
        HostOs::Linux => ShellType::Bash,
        HostOs::Other => ShellType::Bash,
    }
}

/// The running shell, from the parent process, else the environment, else
/// the operating system's default. Never fails.
pub fn detect_shell(signals: &DetectionSignals) -> (r: ShellType)
    ensures
        r == detected(*signals),
{
    if let Some(d) = detect_from_parent_process(&signals.parent_name) {
        return d;
    }
    if let Some(d) = detect_from_env(&signals.env) {
        return d;
    }
    detect_from_os(signals.os)
}

/// The dialect to use: an explicit override wins and skips detection.
pub fn get_shell(override_shell: Option<ShellType>, signals: &DetectionSignals) -> (r: ShellType)
    ensures
        r == match override_shell {
            Some(d) => d,
            None => detected(*signals),
        },
{
    match override_shell {
        Some(d) => d,
        None => detect_shell(signals),
    }
}

} // verus!

verus! {

/// A lower-case name that holds "git-bash" holds "bash".
proof fn lemma_git_bash_holds_bash(lower: Seq<char>)
    ensures
        contains(lower, "git-bash"@) ==> contains(lower, "bash"@),
{
    if contains(lower, "git-bash"@) {
        reveal_strlit("git-bash");
        reveal_strlit("bash");
        let q = choose|q: int| occurs_at(lower, "git-bash"@, q);
        assert(lower.subrange(q + 4, q + 8) =~= lower.subrange(q, q + 8).subrange(4, 8));
        assert(("git-bash"@).subrange(4, 8) =~= "bash"@);
        assert(occurs_at(lower, "bash"@, q + 4));
    }
}

/// When the parent process name holds "zsh" (in any letter case) and not
/// "bash", detection gives Zsh, whatever the environment variables and the
/// operating system say.
pub proof fn lemma_parent_zsh_wins(signals: DetectionSignals)
    requires
        signals.parent_name matches Some(n) && contains(lower_of(n@), "zsh"@) && !contains(
            lower_of(n@),
            "bash"@,
        ),
    ensures
        detected(signals) == ShellType::Zsh,
{
    let n = signals.parent_name->0;
    lemma_git_bash_holds_bash(lower_of(n@));
}

} // verus!
