//! What is exchanged with a plugin: the context of a request, and the reply
//! with the changes it asks for.
use vstd::prelude::*;

verus! {

/// Context passed to a plugin when one of its registered binds is pressed.
#[derive(Debug)]
pub struct BindContext {
    /// The internal bind name (from manifest)
    pub name: String,
    /// Which key was pressed
    pub key: String,
    /// Which view the user was in (e.g. "session", "repo", "tree")
    pub view: String,
    /// The value field of the selected item
    pub selected_value: String,
    /// The display field of the selected item
    pub selected_display: String,
}

/// Context passed to a plugin for view-related hooks.
#[derive(Debug)]
pub struct ViewContext {
    /// The plugin view name (from manifest)
    pub view_name: String,
    /// For OnViewSelect: the selected item's value
    pub selected_value: Option<String>,
    /// For OnViewSelect: the selected item's display
    pub selected_display: Option<String>,
}

/// The repository a request is about.
#[derive(Debug)]
pub struct RepoInfo {
    pub id: String,
    pub path: String,
    pub remote_url: Option<String>,
    pub default_branch: Option<String>,
}

/// An item provided by a plugin for its view.
#[derive(Debug)]
pub struct ViewItem {
    /// What the user sees in fzf
    pub display: String,
    /// Internal identifier (passed back on selection)
    pub value: String,
}

/// Changes a plugin asks for on the session of the request. Plugin state
/// values are kept in their TOML encoding.
#[derive(Debug)]
pub struct SessionMutations {
    pub path: Option<String>,
    pub env: Vec<(String, String)>,
    pub plugin_state: Vec<(String, String)>,
}

/// Response returned by a plugin, the parts the library acts on.
#[derive(Debug)]
pub struct HookResponse {
    pub success: bool,
    pub error: Option<String>,
    pub session_mutations: Option<SessionMutations>,
    /// Shell commands to execute inside the ez process (before exit)
    pub shell_commands: Vec<String>,
    /// Shell commands to execute in the user's shell AFTER ez exits.
    pub post_shell_commands: Vec<String>,
    /// Override the cd target written to --cd-file.
    pub cd_target: Option<String>,
    /// Items for a plugin view (returned from OnView hook).
    pub view_items: Option<Vec<ViewItem>>,
    /// Prompt string for plugin view's fzf (returned from OnView hook).
    pub view_prompt: Option<String>,
    /// Preview command for plugin view's fzf (returned from OnView hook).
    pub view_preview_cmd: Option<String>,
}

impl HookResponse {
    /// The reply moves the user somewhere: it names a directory or leaves
    /// commands for the user's shell.
    pub fn has_navigation(&self) -> (r: bool)
        ensures
            r == (self.cd_target is Some || self.post_shell_commands@.len() > 0),
    {
        self.cd_target.is_some() || self.post_shell_commands.len() > 0
    }
}

} // verus!
