//! The library's error type. Every variant carries plain values; the program
//! around the library renders them as messages.
use vstd::prelude::*;

use crate::text::{decimal, views};

verus! {

/// What can go wrong in a workspace or session operation.
#[derive(Debug)]
pub enum EzError {
    Config(String),
    RepoNotFound(String),
    RepoAlreadyRegistered(String),
    SessionNotFound(String),
    SessionAlreadyExists(String),
    SessionHasChildren { name: String, children: Vec<String> },
    SessionWorktreeDirty { dirty: Vec<String> },
    SessionHasUncheckedTodos { sessions: Vec<String> },
    PluginFailed(String, String),
    PluginTimeout(String, u64),
    PluginNotFound(String),
    SelectorUnavailable(String),
    Cancelled,
    Git(String),
    Path(String),
    Io(String),
    TomlSerialize(String),
    TomlDeserialize(String),
    Json(String),
}

/// The message shown for an error.
pub open spec fn error_text(e: EzError) -> Seq<char> {
    match e {
        EzError::Config(s) => "Config error: "@ + s@,
        EzError::RepoNotFound(s) => "Repo '"@ + s@ + "' not found"@,
        EzError::RepoAlreadyRegistered(s) => "Repo '"@ + s@ + "' already registered"@,
        EzError::SessionNotFound(s) => "Session '"@ + s@ + "' not found"@,
        EzError::SessionAlreadyExists(s) => "Session '"@ + s@ + "' already exists in this repo"@,
        EzError::SessionHasChildren { name, children } => "Session '"@ + name@ + "' has children: "@
            + crate::config::debug_list(views(children@)) + ". Use --force to delete."@,
        EzError::SessionWorktreeDirty { dirty } => "Worktree(s) "@ + crate::config::debug_list(
            views(dirty@),
        ) + " have uncommitted changes. Use --force to delete."@,
        EzError::SessionHasUncheckedTodos { sessions } => "Session(s) "@ + crate::config::debug_list(
            views(sessions@),
        ) + " have unchecked TODOs in their notes. Use --force to delete."@,
        EzError::PluginFailed(p, m) => "Plugin '"@ + p@ + "' failed: "@ + m@,
        EzError::PluginTimeout(p, t) => "Plugin '"@ + p@ + "' timed out after "@ + decimal(t as nat)
            + "s"@,
        EzError::PluginNotFound(p) => "Plugin '"@ + p@ + "' not found"@,
        EzError::SelectorUnavailable(s) => "Interactive selector not available: "@ + s@,
        EzError::Cancelled => "Aborted."@,
        EzError::Git(s) => "Git error: "@ + s@,
        EzError::Path(s) => "Path error: "@ + s@,
        EzError::Io(s) => "IO error: "@ + s@,
        EzError::TomlSerialize(s) => "TOML serialization error: "@ + s@,
        EzError::TomlDeserialize(s) => "TOML deserialization error: "@ + s@,
        EzError::Json(s) => "JSON error: "@ + s@,
    }
}

impl EzError {
    /// The message shown for the error.
    pub fn message(&self) -> (r: String)
        ensures
            r@ == error_text(*self),
    {
        match self {
            EzError::Config(s) => crate::text::concat("Config error: ", s.as_str()),
            EzError::RepoNotFound(s) => crate::text::concat3("Repo '", s.as_str(), "' not found"),
            EzError::RepoAlreadyRegistered(s) => crate::text::concat3(
                "Repo '",
                s.as_str(),
                "' already registered",
            ),
            EzError::SessionNotFound(s) => crate::text::concat3(
                "Session '",
                s.as_str(),
                "' not found",
            ),
            EzError::SessionAlreadyExists(s) => crate::text::concat3(
                "Session '",
                s.as_str(),
                "' already exists in this repo",
            ),
            EzError::SessionHasChildren { name, children } => {
                let mut m = crate::text::concat3("Session '", name.as_str(), "' has children: ");
                m.append(crate::config::debug_strings(children).as_str());
                m.append(". Use --force to delete.");
                m
            },
            EzError::SessionWorktreeDirty { dirty } => crate::text::concat3(
                "Worktree(s) ",
                crate::config::debug_strings(dirty).as_str(),
                " have uncommitted changes. Use --force to delete.",
            ),
            EzError::SessionHasUncheckedTodos { sessions } => crate::text::concat3(
                "Session(s) ",
                crate::config::debug_strings(sessions).as_str(),
                " have unchecked TODOs in their notes. Use --force to delete.",
            ),
            EzError::PluginFailed(p, m) => {
                let mut s = crate::text::concat3("Plugin '", p.as_str(), "' failed: ");
                s.append(m.as_str());
                s
            },
            EzError::PluginTimeout(p, t) => {
                let mut s = crate::text::concat3("Plugin '", p.as_str(), "' timed out after ");
                s.append(crate::text::decimal_string(*t as u128).as_str());
                s.append("s");
                s
            },
            EzError::PluginNotFound(p) => crate::text::concat3("Plugin '", p.as_str(), "' not found"),
            EzError::SelectorUnavailable(s) => crate::text::concat(
                "Interactive selector not available: ",
                s.as_str(),
            ),
            EzError::Cancelled => crate::text::owned("Aborted."),
            EzError::Git(s) => crate::text::concat("Git error: ", s.as_str()),
            EzError::Path(s) => crate::text::concat("Path error: ", s.as_str()),
            EzError::Io(s) => crate::text::concat("IO error: ", s.as_str()),
            EzError::TomlSerialize(s) => crate::text::concat("TOML serialization error: ", s.as_str()),
            EzError::TomlDeserialize(s) => crate::text::concat(
                "TOML deserialization error: ",
                s.as_str(),
            ),
            EzError::Json(s) => crate::text::concat("JSON error: ", s.as_str()),
        }
    }
}

} // verus!
