//! The command line of the `ez` program, as plain values.
use vstd::prelude::*;

verus! {

/// The parsed command line.
#[derive(Debug)]
pub struct Cli {
    pub command: Option<Command>,
    /// Write the target directory to this file instead of printing it (used by shell wrapper)
    pub cd_file: Option<String>,
}

/// The top-level commands.
#[derive(Debug)]
#[allow(inconsistent_fields)]
pub enum Command {
    /// Clone a repository and register it
    Clone { url: String, path: Option<String> },
    /// Register an existing repository
    Add { path: Option<String> },
    /// Session management
    Session { command: SessionCommand },
    /// Repository management
    Repo { command: RepoCommand },
    /// Plugin management
    Plugin { command: PluginCommand },
    /// Show or edit configuration
    Config { edit: bool },
    /// Initialize shell integration (prints shell function to eval)
    InitShell { shell: String },
    /// Preview helper for fzf: a path, or with `session_actions` the
    /// session `session_id` of the repository at the path.
    Preview { path: String, session_actions: bool, session_id: Option<String> },
}

/// The `session` subcommands.
#[derive(Debug)]
#[allow(inconsistent_fields)]
pub enum SessionCommand {
    /// Create a new session
    New { name: Option<String>, parent: Option<String>, repo: Option<String> },
    /// List sessions for a repository
    List { repo: Option<String>, flat: bool },
    /// Delete a session
    Delete { name: String, repo: Option<String>, force: bool },
    /// Enter a session
    Enter { name: String, repo: Option<String> },
    /// Exit the current session
    Exit,
    /// Rename a session
    Rename { name: String, new_name: String, repo: Option<String> },
}

/// The `repo` subcommands.
#[derive(Debug)]
pub enum RepoCommand {
    /// List registered repositories
    List,
    /// Unregister a repository
    Remove { name: String, purge: bool },
}

/// The `plugin` subcommands.
#[derive(Debug)]
pub enum PluginCommand {
    /// List available plugins
    List,
    /// Enable a plugin
    Enable { name: String },
    /// Disable a plugin
    Disable { name: String },
}

} // verus!
