//! The capability set shared by every dialect, and one type per dialect.
use vstd::prelude::*;
use crate::dialect::{
    alias_line, begin_marker_of, comment_prefix_of, config_relative_of, end_marker_of, name_of,
    path_join, reload_of, render_block, ShellError, ShellType,
};

verus! {

/// What every supported shell provides: its name, how it writes an alias,
/// where its startup file lives, how to reload it, and its block markers.
pub trait Shell {
    /// The dialect this value stands for.
    spec fn dialect(&self) -> ShellType;

    /// The dialect this value stands for.
    fn shell_type(&self) -> (r: ShellType)
        ensures
            r == self.dialect(),
    ;

    /// The short display name.
    fn name(&self) -> (r: &'static str)
        ensures
            r@ == name_of(self.dialect()),
    {
        self.shell_type().name()
    }

    /// The line that defines alias `name` as `command`.
    fn alias_syntax(&self, name: &str, command: &str) -> (r: String)
        ensures
            r@ == alias_line(self.dialect(), name@, command@),
    {
        self.shell_type().alias_syntax(name, command)
    }

    /// The startup file under the current user's home directory.
    fn config_path(&self) -> (r: Result<String, ShellError>)
        ensures
            match r {
                Ok(p) => exists|h: Seq<char>| p@ == path_join(h, config_relative_of(self.dialect())),
                Err(e) => e == ShellError::HomeDirNotFound,
            },
    {
        self.shell_type().config_path()
    }

    /// The startup file under the home directory `home`.
    fn config_path_in(&self, home: Option<&str>) -> (r: Result<String, ShellError>)
        ensures
            match home {
                None => r == Err::<String, ShellError>(ShellError::HomeDirNotFound),
                Some(h) => r matches Ok(p) && p@ == path_join(
                    h@,
                    config_relative_of(self.dialect()),
                ),
            },
    {
        self.shell_type().config_path_in(home)
    }

    /// How to make a running shell pick up new aliases.
    fn reload_instructions(&self) -> (r: String)
        ensures
            r@ == reload_of(self.dialect()),
    {
        self.shell_type().reload_instructions()
    }

    /// The comment prefix used to build the markers.
    fn comment_prefix(&self) -> (r: &'static str)
        ensures
            r@ == comment_prefix_of(self.dialect()),
    {
        self.shell_type().comment_prefix()
    }

    /// The line that opens the managed block.
    fn begin_marker(&self) -> (r: String)
        ensures
            r@ == begin_marker_of(self.dialect()),
    {
        self.shell_type().begin_marker()
    }

    /// The line that closes the managed block.
    fn end_marker(&self) -> (r: String)
        ensures
            r@ == end_marker_of(self.dialect()),
    {
        self.shell_type().end_marker()
    }

    /// The managed block for `aliases`, one line per entry in order.
    fn generate_alias_block(&self, aliases: &Vec<(String, String)>) -> (r: String)
        ensures
            r@ == render_block(self.dialect(), aliases@),
    {
        self.shell_type().generate_alias_block(aliases)
    }
}

/// The Bash dialect.
#[derive(Debug, Clone, Copy, PartialEq, Eq)]
pub struct Bash;

/// The Zsh dialect.
#[derive(Debug, Clone, Copy, PartialEq, Eq)]
pub struct Zsh;

/// The PowerShell dialect.
#[derive(Debug, Clone, Copy, PartialEq, Eq)]
pub struct PowerShell;

impl Shell for Bash {
    open spec fn dialect(&self) -> ShellType {
        ShellType::Bash
    }

    fn shell_type(&self) -> (r: ShellType) {
        ShellType::Bash
    }
}

impl Shell for Zsh {
    open spec fn dialect(&self) -> ShellType {
        ShellType::Zsh
    }

    fn shell_type(&self) -> (r: ShellType) {
        ShellType::Zsh
    }
}

impl Shell for PowerShell {
    open spec fn dialect(&self) -> ShellType {
        ShellType::PowerShell
    }

    fn shell_type(&self) -> (r: ShellType) {
        ShellType::PowerShell
    }
}

impl Shell for ShellType {
    open spec fn dialect(&self) -> ShellType {
        *self
    }

    fn shell_type(&self) -> (r: ShellType) {
        *self
    }
}

} // verus!
