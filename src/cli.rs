//! What the command line asks for.
use vstd::prelude::*;
use crate::dialect::ShellType;

verus! {

/// The parsed command line.
#[derive(Debug, Clone, PartialEq, Eq)]
pub struct Cli {
    /// A shell that overrides detection.
    pub shell: Option<ShellType>,
    /// The subcommand; none starts the interactive menu.
    pub command: Option<Command>,
}

/// The subcommands.
#[derive(Debug, Clone, PartialEq, Eq)]
pub enum Command {
    /// Add a new alias, or change an existing one.
    Add { name: String, command: String },
    /// Remove an alias.
    Remove { name: String },
    /// List all aliases.
    List,
    /// Write the aliases to the shell's startup file.
    Apply,
    /// Set the shell up to load the aliases on startup.
    Init,
}

} // verus!
