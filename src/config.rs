//! The tool's own settings and what follows from them.
use vstd::prelude::*;
use vstd::string::StringExecFns;
use crate::dialect::{shell_named, ShellError, ShellType};
use crate::text::{lower_of, lowercase, str_equals};

verus! {

/// How much the tool logs.
#[derive(Debug, Clone, Copy, PartialEq, Eq, Structural)]
pub enum LogLevel {
    Trace,
    Debug,
    Info,
    Warn,
    Error,
}

/// The level a lower-case level name stands for; unknown names mean errors only.
pub open spec fn level_named(lower: Seq<char>) -> LogLevel {
    if lower == "trace"@ {
        LogLevel::Trace
    } else if lower == "debug"@ {
        LogLevel::Debug
    } else if lower == "info"@ {
        LogLevel::Info
    } else if lower == "warn"@ {
        LogLevel::Warn
    } else {
        LogLevel::Error
    }
}

/// The level named by `lower`, a name already in lower case.
pub fn level_from_lowercase(lower: &str) -> (r: LogLevel)
    ensures
        r == level_named(lower@),
{
    if str_equals(lower, "trace") {
        LogLevel::Trace
    } else if str_equals(lower, "debug") {
        LogLevel::Debug
    } else if str_equals(lower, "info") {
        LogLevel::Info
    } else if str_equals(lower, "warn") {
        LogLevel::Warn
    } else {
        LogLevel::Error
    }
}

/// The log level used when the settings name none.
pub fn default_log_level() -> (r: String)
    ensures
        r@ == "error"@,
{
    String::from_str("error")
}

/// The tool's settings.
#[derive(Debug, Clone, PartialEq, Eq)]
pub struct Config {
    /// A shell name that overrides detection.
    pub shell: Option<String>,
    /// Where the alias file lives, when not in its default place.
    pub aliases_path: Option<String>,
    /// The log level name.
    pub log_level: String,
}

impl Default for Config {
    fn default() -> (r: Self)
        ensures
            r.shell is None,
            r.aliases_path is None,
            r.log_level@ == "error"@,
    {
        Config { shell: None, aliases_path: None, log_level: default_log_level() }
    }
}

impl Config {
    /// The log level the settings name, in any letter case.
    pub fn tracing_level(&self) -> (r: LogLevel)
        ensures
            r == level_named(lower_of(self.log_level@)),
    {
        let lower = lowercase(self.log_level.as_str());
        level_from_lowercase(lower.as_str())
    }

    /// The dialect the settings name, if they name one; a name that is not
    /// a supported shell is an error, never a reason to detect instead.
    pub fn shell_override(&self) -> (r: Result<Option<ShellType>, ShellError>)
        ensures
            match self.shell {
                None => r == Ok::<Option<ShellType>, ShellError>(None),
                Some(s) => match shell_named(lower_of(s@)) {
                    Some(d) => r == Ok::<Option<ShellType>, ShellError>(Some(d)),
                    None => r matches Err(ShellError::UnsupportedShell(n)) && n@ == s@,
                },
            },
    {
        match &self.shell {
            Some(s) => match ShellType::from_name(s.as_str()) {
                Ok(d) => Ok(Some(d)),
                Err(e) => Err(e),
            },
            None => Ok(None),
        }
    }
}

/// The override to use: the command line's, else the settings'. An
/// unsupported name in the settings is an error when the command line names
/// no shell.
pub fn resolve_override(cli_shell: Option<ShellType>, config: &Config) -> (r: Result<
    Option<ShellType>,
    ShellError,
>)
    ensures
        match cli_shell {
            Some(d) => r == Ok::<Option<ShellType>, ShellError>(Some(d)),
            None => match config.shell {
                None => r == Ok::<Option<ShellType>, ShellError>(None),
                Some(s) => match shell_named(lower_of(s@)) {
                    Some(d) => r == Ok::<Option<ShellType>, ShellError>(Some(d)),
                    None => r matches Err(ShellError::UnsupportedShell(n)) && n@ == s@,
                },
            },
        },
{
    match cli_shell {
        Some(d) => Ok(Some(d)),
        None => config.shell_override(),
    }
}

} // verus!
