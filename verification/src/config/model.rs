//! The user's configuration and its defaults.
use vstd::prelude::*;

use crate::session::name_builder::{NameBuilderMode, NameStage};

verus! {

/// The whole configuration file.
#[derive(Debug)]
pub struct EzConfig {
    /// Workspace root directories to browse (e.g. ["~/workspace/personal", "~/workspace/work"])
    pub workspace_roots: Vec<String>,
    /// Default shell for session enter
    pub default_shell: Option<String>,
    /// Editor for config editing
    pub editor: Option<String>,
    /// Interactive selector configuration
    pub selector: SelectorConfig,
    /// fzf-specific configuration
    pub fzf: FzfConfig,
    /// Keybindings for session actions
    pub keybinds: KeybindsConfig,
    /// Plugin configuration
    pub plugins: PluginsConfig,
    /// Plugin execution timeout in seconds
    pub plugin_timeout: u64,
    /// Default selection type for the interactive browser (`tree`, `workspace`,
    /// `repo`, `owner`, `label`). Overridden by `--select-by` on the CLI.
    pub default_select_by: String,
    /// The ways a new session's name may be entered, offered in this order
    /// (one mode is used without asking; none cancels).
    pub name_builder_modes: Vec<NameBuilderMode>,
    /// The stages of the build-from-parts name, before its final part.
    pub session_name_stages: Vec<NameStage>,
    /// The order the session list starts in: `lru` (any case) for most
    /// recently used first, anything else A-Z.
    pub default_sort: String,
}

/// Which interactive selector runs.
#[derive(Debug)]
pub struct SelectorConfig {
    /// Selector backend: "fzf" (default)
    pub backend: String,
    /// Extra fzf flags (deprecated, use [fzf] section)
    pub fzf_opts: Option<String>,
}

/// fzf's own settings.
#[derive(Debug)]
pub struct FzfConfig {
    /// fzf height (e.g. "90%", "100%", "20")
    pub height: String,
    /// Extra fzf flags
    pub extra_opts: Option<String>,
}

/// Keys of the browser's actions, in fzf's key syntax.
#[derive(Debug)]
pub struct KeybindsConfig {
    /// Create new child session (default: "alt-n")
    pub new_session: String,
    /// Delete session (default: "alt-d")
    pub delete_session: String,
    /// Rename session (default: "alt-r")
    pub rename_session: String,
    /// Switch to tree view (default: "ctrl-t")
    pub view_tree: String,
    /// Switch to workspace view (default: "ctrl-w")
    pub view_workspace: String,
    /// Switch to repo view (default: "ctrl-e"; ctrl-r reserved by fzf history)
    pub view_repo: String,
    /// Switch to owner view (default: "ctrl-o")
    pub view_owner: String,
    /// Switch to label view (default: "ctrl-g"; ctrl-l reserved by terminal clear)
    pub view_label: String,
    /// Edit labels on the selected item (default: "alt-l")
    pub edit_labels: String,
    /// Create new bare child session, without a worktree (default: "alt-N")
    pub new_bare_session: String,
    /// Create a session from the uncommitted changes (default: "alt-s")
    pub session_from_dirty: String,
    /// cd into the selected session without entering it (default: "ctrl-d")
    pub cd_session: String,
    /// Toggle the session picker's order (default: "ctrl-s")
    pub sort_toggle: String,
    /// Clone a repository into the current directory (default: "alt-a")
    pub clone_repo: String,
}

/// Which plugins run, and where they live.
#[derive(Debug)]
pub struct PluginsConfig {
    /// List of enabled plugin names
    pub enabled: Vec<String>,
    /// Override default plugin directory
    pub plugin_dir: Option<String>,
}

pub fn default_selector_backend() -> (r: String)
    ensures
        r@ == "fzf"@,
{
    crate::text::owned("fzf")
}

pub fn default_fzf_height() -> (r: String)
    ensures
        r@ == "90%"@,
{
    crate::text::owned("90%")
}

pub fn default_bind_new() -> (r: String)
    ensures
        r@ == "alt-n"@,
{
    crate::text::owned("alt-n")
}

pub fn default_bind_delete() -> (r: String)
    ensures
        r@ == "alt-d"@,
{
    crate::text::owned("alt-d")
}

pub fn default_bind_rename() -> (r: String)
    ensures
        r@ == "alt-r"@,
{
    crate::text::owned("alt-r")
}

pub fn default_bind_view_tree() -> (r: String)
    ensures
        r@ == "ctrl-t"@,
{
    crate::text::owned("ctrl-t")
}

pub fn default_bind_view_workspace() -> (r: String)
    ensures
        r@ == "ctrl-w"@,
{
    crate::text::owned("ctrl-w")
}

pub fn default_bind_view_repo() -> (r: String)
    ensures
        r@ == "ctrl-e"@,
{
    crate::text::owned("ctrl-e")
}

pub fn default_bind_view_owner() -> (r: String)
    ensures
        r@ == "ctrl-o"@,
{
    crate::text::owned("ctrl-o")
}

pub fn default_bind_view_label() -> (r: String)
    ensures
        r@ == "ctrl-g"@,
{
    crate::text::owned("ctrl-g")
}

pub fn default_bind_edit_labels() -> (r: String)
    ensures
        r@ == "alt-l"@,
{
    crate::text::owned("alt-l")
}

pub fn default_bind_new_bare() -> (r: String)
    ensures
        r@ == "alt-N"@,
{
    crate::text::owned("alt-N")
}

pub fn default_bind_from_dirty() -> (r: String)
    ensures
        r@ == "alt-s"@,
{
    crate::text::owned("alt-s")
}

pub fn default_bind_cd() -> (r: String)
    ensures
        r@ == "ctrl-d"@,
{
    crate::text::owned("ctrl-d")
}

pub fn default_bind_sort() -> (r: String)
    ensures
        r@ == "ctrl-s"@,
{
    crate::text::owned("ctrl-s")
}

pub fn default_bind_clone() -> (r: String)
    ensures
        r@ == "alt-a"@,
{
    crate::text::owned("alt-a")
}

pub fn default_plugin_timeout() -> (r: u64)
    ensures
        r == 30,
{
    30
}

/// Every naming mode, in the order the picker lists them.
pub fn default_name_builder_modes() -> (r: Vec<NameBuilderMode>)
    ensures
        r@ == seq![
            NameBuilderMode::FullName,
            NameBuilderMode::BuildFromParts,
            NameBuilderMode::GitHubPr,
            NameBuilderMode::JiraUrl,
        ],
{
    let mut v: Vec<NameBuilderMode> = Vec::new();
    v.push(NameBuilderMode::FullName);
    v.push(NameBuilderMode::BuildFromParts);
    v.push(NameBuilderMode::GitHubPr);
    v.push(NameBuilderMode::JiraUrl);
    assert(v@ =~= seq![
        NameBuilderMode::FullName,
        NameBuilderMode::BuildFromParts,
        NameBuilderMode::GitHubPr,
        NameBuilderMode::JiraUrl,
    ]);
    v
}

pub fn default_select_by() -> (r: String)
    ensures
        r@ == "workspace"@,
{
    crate::text::owned("workspace")
}

impl Default for SelectorConfig {
    fn default() -> (r: Self)
        ensures
            r.backend@ == "fzf"@,
            r.fzf_opts is None,
    {
        SelectorConfig { backend: default_selector_backend(), fzf_opts: None }
    }
}

impl Default for FzfConfig {
    fn default() -> (r: Self)
        ensures
            r.height@ == "90%"@,
            r.extra_opts is None,
    {
        FzfConfig { height: default_fzf_height(), extra_opts: None }
    }
}

impl Default for KeybindsConfig {
    fn default() -> (r: Self)
        ensures
            r.new_session@ == "alt-n"@,
            r.delete_session@ == "alt-d"@,
            r.rename_session@ == "alt-r"@,
            r.view_tree@ == "ctrl-t"@,
            r.view_workspace@ == "ctrl-w"@,
            r.view_repo@ == "ctrl-e"@,
            r.view_owner@ == "ctrl-o"@,
            r.view_label@ == "ctrl-g"@,
            r.edit_labels@ == "alt-l"@,
            r.new_bare_session@ == "alt-N"@,
            r.session_from_dirty@ == "alt-s"@,
            r.cd_session@ == "ctrl-d"@,
            r.sort_toggle@ == "ctrl-s"@,
            r.clone_repo@ == "alt-a"@,
    {
        KeybindsConfig {
            new_session: default_bind_new(),
            delete_session: default_bind_delete(),
            rename_session: default_bind_rename(),
            view_tree: default_bind_view_tree(),
            view_workspace: default_bind_view_workspace(),
            view_repo: default_bind_view_repo(),
            view_owner: default_bind_view_owner(),
            view_label: default_bind_view_label(),
            edit_labels: default_bind_edit_labels(),
            new_bare_session: default_bind_new_bare(),
            session_from_dirty: default_bind_from_dirty(),
            cd_session: default_bind_cd(),
            sort_toggle: default_bind_sort(),
            clone_repo: default_bind_clone(),
        }
    }
}

impl Default for PluginsConfig {
    fn default() -> (r: Self)
        ensures
            r.enabled@.len() == 0,
            r.plugin_dir is None,
    {
        PluginsConfig { enabled: Vec::new(), plugin_dir: None }
    }
}

impl Default for EzConfig {
    fn default() -> (r: Self)
        ensures
            r.workspace_roots@.len() == 0,
            r.default_shell is None,
            r.editor is None,
            r.selector.backend@ == "fzf"@,
            r.selector.fzf_opts is None,
            r.fzf.height@ == "90%"@,
            r.fzf.extra_opts is None,
            r.keybinds.new_session@ == "alt-n"@,
            r.keybinds.delete_session@ == "alt-d"@,
            r.keybinds.rename_session@ == "alt-r"@,
            r.keybinds.view_tree@ == "ctrl-t"@,
            r.keybinds.view_workspace@ == "ctrl-w"@,
            r.keybinds.view_repo@ == "ctrl-e"@,
            r.keybinds.view_owner@ == "ctrl-o"@,
            r.keybinds.view_label@ == "ctrl-g"@,
            r.keybinds.edit_labels@ == "alt-l"@,
            r.keybinds.new_bare_session@ == "alt-N"@,
            r.keybinds.session_from_dirty@ == "alt-s"@,
            r.keybinds.cd_session@ == "ctrl-d"@,
            r.keybinds.sort_toggle@ == "ctrl-s"@,
            r.keybinds.clone_repo@ == "alt-a"@,
            r.plugins.enabled@.len() == 0,
            r.plugins.plugin_dir is None,
            r.plugin_timeout == 30,
            r.default_select_by@ == "workspace"@,
            r.name_builder_modes@ == seq![
                NameBuilderMode::FullName,
                NameBuilderMode::BuildFromParts,
                NameBuilderMode::GitHubPr,
                NameBuilderMode::JiraUrl,
            ],
            r.session_name_stages@.len() == 0,
            r.default_sort@ == "alpha"@,
    {
        EzConfig {
            workspace_roots: Vec::new(),
            default_shell: None,
            editor: None,
            selector: SelectorConfig::default(),
            fzf: FzfConfig::default(),
            keybinds: KeybindsConfig::default(),
            plugins: PluginsConfig::default(),
            plugin_timeout: default_plugin_timeout(),
            default_select_by: default_select_by(),
            name_builder_modes: default_name_builder_modes(),
            session_name_stages: Vec::new(),
            default_sort: crate::text::owned("alpha"),
        }
    }
}

} // verus!
