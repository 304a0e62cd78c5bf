//! What a plugin declares in its manifest: the hooks it handles, its key
//! binds and its views.
use vstd::prelude::*;

verus! {

/// A keybind registered by a plugin for actions on the currently selected item.
#[derive(Debug)]
pub struct PluginBind {
    /// Keybind string (e.g. "ctrl-a", "alt-x")
    pub key: String,
    /// Internal name for this bind (sent back to plugin in OnBind)
    pub name: String,
    /// Human-readable label shown in fzf header
    pub label: String,
    /// Which view contexts this bind is active in
    pub contexts: Vec<String>,
}

/// A full-screen view provided by a plugin.
#[derive(Debug)]
pub struct PluginView {
    /// Internal name for this view
    pub name: String,
    /// Keybind to switch to this view (e.g. "ctrl-a")
    pub key: String,
    /// Human-readable label shown in view-switch header
    pub label: String,
    /// Which view contexts this view switch is available from
    pub contexts: Vec<String>,
}

/// Every view context, the contexts of a view that names none.
pub open spec fn every_context() -> Seq<Seq<char>> {
    seq!["session"@, "repo"@, "owner"@, "workspace"@, "tree"@, "label"@]
}

/// The contexts a plugin view is available from when its manifest names none.
pub fn all_contexts() -> (r: Vec<String>)
    ensures
        crate::text::views(r@) == every_context(),
{
    let mut v: Vec<String> = Vec::new();
    v.push(crate::text::owned("session"));
    v.push(crate::text::owned("repo"));
    v.push(crate::text::owned("owner"));
    v.push(crate::text::owned("workspace"));
    v.push(crate::text::owned("tree"));
    v.push(crate::text::owned("label"));
    assert(crate::text::views(v@) =~= every_context());
    v
}

/// The events a plugin can handle.
#[derive(Clone, Copy, Debug, PartialEq, Eq, Structural)]
pub enum HookType {
    OnSessionCreate,
    OnSessionDelete,
    OnSessionEnter,
    OnSessionExit,
    OnSessionRename,
    OnSessionSync,
    OnRepoClone,
    OnRepoRemove,
    OnPluginInit,
    OnPluginDeinit,
    OnBind,
    OnView,
    OnViewSelect,
}

/// The snake-case name of a hook, as plugins see it.
pub open spec fn hook_name(h: HookType) -> Seq<char> {
    match h {
        HookType::OnSessionCreate => "on_session_create"@,
        HookType::OnSessionDelete => "on_session_delete"@,
        HookType::OnSessionEnter => "on_session_enter"@,
        HookType::OnSessionExit => "on_session_exit"@,
        HookType::OnSessionRename => "on_session_rename"@,
        HookType::OnSessionSync => "on_session_sync"@,
        HookType::OnRepoClone => "on_repo_clone"@,
        HookType::OnRepoRemove => "on_repo_remove"@,
        HookType::OnPluginInit => "on_plugin_init"@,
        HookType::OnPluginDeinit => "on_plugin_deinit"@,
        HookType::OnBind => "on_bind"@,
        HookType::OnView => "on_view"@,
        HookType::OnViewSelect => "on_view_select"@,
    }
}

impl HookType {
    /// The hook's name (what `Display` shows).
    pub fn name(&self) -> (r: &'static str)
        ensures
            r@ == hook_name(*self),
    {
        match self {
            HookType::OnSessionCreate => "on_session_create",
            HookType::OnSessionDelete => "on_session_delete",
            HookType::OnSessionEnter => "on_session_enter",
            HookType::OnSessionExit => "on_session_exit",
            HookType::OnSessionRename => "on_session_rename",
            HookType::OnSessionSync => "on_session_sync",
            HookType::OnRepoClone => "on_repo_clone",
            HookType::OnRepoRemove => "on_repo_remove",
            HookType::OnPluginInit => "on_plugin_init",
            HookType::OnPluginDeinit => "on_plugin_deinit",
            HookType::OnBind => "on_bind",
            HookType::OnView => "on_view",
            HookType::OnViewSelect => "on_view_select",
        }
    }

    /// A failing plugin aborts the operation, except on entering or leaving
    /// a session, where it is only reported.
    pub fn failure_is_fatal(&self) -> (r: bool)
        ensures
            r == !(*self == HookType::OnSessionEnter || *self == HookType::OnSessionExit),
    {
        match self {
            HookType::OnSessionEnter | HookType::OnSessionExit => false,
            _ => true,
        }
    }
}

/// Whether the hook list holds `h`.
pub fn handles_hook(hooks: &Vec<HookType>, h: HookType) -> (r: bool)
    ensures
        r == hooks@.contains(h),
{
    let mut i: usize = 0;
    while i < hooks.len()
        invariant
            i <= hooks@.len(),
            forall|j: int| 0 <= j < i ==> hooks@[j] != h,
        decreases hooks.len() - i,
    {
        if hooks[i] == h {
            return true;
        }
        i += 1;
    }
    false
}

} // verus!
