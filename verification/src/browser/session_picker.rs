//! The decisions of a repository's session picker: which keys it listens
//! to, what a pressed key asks for, and what accepting a session does.
use vstd::prelude::*;

use crate::config::model::KeybindsConfig;
use crate::plugin::{bind_infos, view_infos, InfoView, PluginBindInfo, PluginViewInfo};
use crate::search::{find_first, first_match, lemma_first_match_is};
use crate::session::model::{opt_view, Session};
use crate::text::views;
use crate::browser::SortMode;
use crate::session::model::SessionTree;
use crate::session::tree::{lru_roots, nviews, render_list, root_flag, TreeNode};

verus! {

/// The session tree as the picker lists it in a sort mode: roots in tree
/// order (A-Z) or most recently used subtree first (LRU).
pub fn render_for_mode(tree: &SessionTree, mode: SortMode) -> (r: Vec<TreeNode<'_>>)
    ensures
        nviews(r@) == render_list(
            tree@,
            match mode {
                SortMode::Alpha => tree@.filter(root_flag()),
                SortMode::Lru => lru_roots(tree@),
            },
            0,
            0,
            Seq::empty(),
            tree@.len(),
        ),
{
    match mode {
        SortMode::Alpha => tree.render_tree(),
        SortMode::Lru => tree.render_tree_lru(),
    }
}

/// The core keys of the session picker, in the order it registers them.
pub open spec fn picker_core_keys(kb: KeybindsConfig) -> Seq<Seq<char>> {
    seq![
        kb.new_session@,
        kb.new_bare_session@,
        kb.session_from_dirty@,
        kb.delete_session@,
        kb.rename_session@,
        kb.edit_labels@,
        kb.cd_session@,
        kb.sort_toggle@,
    ]
}

/// The keys of a list of view or bind entries.
pub open spec fn info_keys(v: Seq<InfoView>) -> Seq<Seq<char>> {
    v.map_values(|x: InfoView| x.key)
}

/// The keys the session picker listens to: its own, then each plugin
/// view's, then each plugin bind's.
pub fn session_expect_keys(
    kb: &KeybindsConfig,
    plugin_views: &Vec<PluginViewInfo>,
    plugin_binds: &Vec<PluginBindInfo>,
) -> (r: Vec<String>)
    ensures
        views(r@) == picker_core_keys(*kb) + info_keys(view_infos(plugin_views@)) + info_keys(
            bind_infos(plugin_binds@),
        ),
{
    let mut keys: Vec<String> = Vec::new();
    keys.push(kb.new_session.clone());
    keys.push(kb.new_bare_session.clone());
    keys.push(kb.session_from_dirty.clone());
    keys.push(kb.delete_session.clone());
    keys.push(kb.rename_session.clone());
    keys.push(kb.edit_labels.clone());
    keys.push(kb.cd_session.clone());
    keys.push(kb.sort_toggle.clone());
    let ghost core = picker_core_keys(*kb);
    assert(views(keys@) =~= core);
    let ghost vk = info_keys(view_infos(plugin_views@));
    let mut i: usize = 0;
    while i < plugin_views.len()
        invariant
            i <= plugin_views@.len(),
            vk == info_keys(view_infos(plugin_views@)),
            views(keys@) == core + vk.subrange(0, i as int),
        decreases plugin_views.len() - i,
    {
        let ghost prev = views(keys@);
        keys.push(plugin_views[i].key.clone());
        assert(vk[i as int] == plugin_views@[i as int].key@);
        assert(views(keys@) =~= prev.push(vk[i as int]));
        assert(vk.subrange(0, i + 1) =~= vk.subrange(0, i as int).push(vk[i as int]));
        i += 1;
    }
    assert(vk.subrange(0, i as int) =~= vk);
    let ghost mid = views(keys@);
    let ghost bk = info_keys(bind_infos(plugin_binds@));
    let mut j: usize = 0;
    assert(mid + bk.subrange(0, 0) =~= mid);
    while j < plugin_binds.len()
        invariant
            j <= plugin_binds@.len(),
            bk == info_keys(bind_infos(plugin_binds@)),
            views(keys@) == mid + bk.subrange(0, j as int),
        decreases plugin_binds.len() - j,
    {
        let ghost prev = views(keys@);
        keys.push(plugin_binds[j].key.clone());
        assert(bk[j as int] == plugin_binds@[j as int].key@);
        assert(views(keys@) =~= prev.push(bk[j as int]));
        assert(bk.subrange(0, j + 1) =~= bk.subrange(0, j as int).push(bk[j as int]));
        j += 1;
    }
    assert(bk.subrange(0, j as int) =~= bk);
    keys
}

/// What a key pressed in the session picker asks for.
#[derive(Debug)]
pub enum SessionKeyAction {
    NewSession,
    NewBareSession,
    FromDirty,
    Delete,
    Rename,
    EditLabels,
    Cd,
    SortToggle,
    /// Run the plugin bind at this position.
    PluginBind(usize),
    /// Switch to the plugin view at this position.
    PluginView(usize),
    /// No action has this key: show the list again.
    Nothing,
}

/// Entries with this key.
pub open spec fn has_key(key: Seq<char>) -> spec_fn(InfoView) -> bool {
    |x: InfoView| x.key == key
}

/// The action of a pressed key: the picker's own keys first, in order, then
/// the first plugin bind with the key, then the first plugin view.
pub open spec fn key_action(
    key: Seq<char>,
    kb: KeybindsConfig,
    vs: Seq<InfoView>,
    bs: Seq<InfoView>,
    a: SessionKeyAction,
) -> bool {
    if key == kb.new_session@ {
        a is NewSession
    } else if key == kb.new_bare_session@ {
        a is NewBareSession
    } else if key == kb.session_from_dirty@ {
        a is FromDirty
    } else if key == kb.delete_session@ {
        a is Delete
    } else if key == kb.rename_session@ {
        a is Rename
    } else if key == kb.edit_labels@ {
        a is EditLabels
    } else if key == kb.cd_session@ {
        a is Cd
    } else if key == kb.sort_toggle@ {
        a is SortToggle
    } else if first_match(bs, has_key(key)) < bs.len() {
        a == SessionKeyAction::PluginBind(first_match(bs, has_key(key)) as usize)
    } else if first_match(vs, has_key(key)) < vs.len() {
        a == SessionKeyAction::PluginView(first_match(vs, has_key(key)) as usize)
    } else {
        a is Nothing
    }
}

fn first_with_key(infos: Ghost<Seq<InfoView>>, keys: &Vec<String>, key: &str) -> (r: usize)
    requires
        keys@.len() == infos@.len(),
        forall|i: int| 0 <= i < keys@.len() ==> #[trigger] keys@[i]@ == infos@[i].key,
    ensures
        r == first_match(infos@, has_key(key@)),
{
    let mut i: usize = 0;
    while i < keys.len()
        invariant
            i <= keys@.len(),
            keys@.len() == infos@.len(),
            forall|j: int| 0 <= j < keys@.len() ==> #[trigger] keys@[j]@ == infos@[j].key,
            forall|j: int| 0 <= j < i ==> !has_key(key@)(#[trigger] infos@[j]),
        decreases keys.len() - i,
    {
        if crate::text::str_eq(keys[i].as_str(), key) {
            proof {
                lemma_first_match_is(infos@, has_key(key@), i as int);
            }
            return i;
        }
        assert(keys@[i as int]@ == infos@[i as int].key);
        i += 1;
    }
    proof {
        lemma_first_match_is(infos@, has_key(key@), i as int);
    }
    i
}

/// What a key pressed in the session picker asks for.
pub fn classify_session_key(
    key: &str,
    kb: &KeybindsConfig,
    plugin_views: &Vec<PluginViewInfo>,
    plugin_binds: &Vec<PluginBindInfo>,
) -> (r: SessionKeyAction)
    ensures
        key_action(key@, *kb, view_infos(plugin_views@), bind_infos(plugin_binds@), r),
{
    let eq = |k: &String| -> (b: bool)
        ensures
            b == (key@ == k@),
        { crate::text::str_eq(key, k.as_str()) };
    if eq(&kb.new_session) {
        SessionKeyAction::NewSession
    } else if eq(&kb.new_bare_session) {
        SessionKeyAction::NewBareSession
    } else if eq(&kb.session_from_dirty) {
        SessionKeyAction::FromDirty
    } else if eq(&kb.delete_session) {
        SessionKeyAction::Delete
    } else if eq(&kb.rename_session) {
        SessionKeyAction::Rename
    } else if eq(&kb.edit_labels) {
        SessionKeyAction::EditLabels
    } else if eq(&kb.cd_session) {
        SessionKeyAction::Cd
    } else if eq(&kb.sort_toggle) {
        SessionKeyAction::SortToggle
    } else {
        let mut bkeys: Vec<String> = Vec::new();
        let mut i: usize = 0;
        while i < plugin_binds.len()
            invariant
                i <= plugin_binds@.len(),
                bkeys@.len() == i,
                forall|j: int|
                    0 <= j < i ==> #[trigger] bkeys@[j]@ == bind_infos(plugin_binds@)[j].key,
            decreases plugin_binds.len() - i,
        {
            bkeys.push(plugin_binds[i].key.clone());
            i += 1;
        }
        let b = first_with_key(Ghost(bind_infos(plugin_binds@)), &bkeys, key);
        if b < plugin_binds.len() {
            return SessionKeyAction::PluginBind(b);
        }
        let mut vkeys: Vec<String> = Vec::new();
        let mut k: usize = 0;
        while k < plugin_views.len()
            invariant
                k <= plugin_views@.len(),
                vkeys@.len() == k,
                forall|j: int|
                    0 <= j < k ==> #[trigger] vkeys@[j]@ == view_infos(plugin_views@)[j].key,
            decreases plugin_views.len() - k,
        {
            vkeys.push(plugin_views[k].key.clone());
            k += 1;
        }
        let v = first_with_key(Ghost(view_infos(plugin_views@)), &vkeys, key);
        if v < plugin_views.len() {
            SessionKeyAction::PluginView(v)
        } else {
            SessionKeyAction::Nothing
        }
    }
}

/// The directory to go to for a session: its own path, else the repo's.
pub fn target_dir(session: &Session, repo_path: &str) -> (r: String)
    ensures
        r@ == match session@.path {
            Some(p) => p,
            None => repo_path@,
        },
{
    match &session.path {
        Some(p) => p.clone(),
        None => crate::text::owned(repo_path),
    }
}

/// The header of the session picker: the order and the key that toggles it.
pub fn sort_header(label: &str, toggle_key: &str) -> (r: String)
    ensures
        r@ == "sort: "@ + label@ + " ("@ + toggle_key@ + ")"@,
{
    let mut s = crate::text::concat3("sort: ", label, " (");
    s.append(toggle_key);
    s.append(")");
    s
}

/// Binds an `on_enter` value names: by label, bind name or plugin name.
pub open spec fn bind_named(v: Seq<char>) -> spec_fn(InfoView) -> bool {
    |b: InfoView| b.label == v || b.name == v || b.plugin == v
}

/// The plugin bind that accepting a session runs for an `on_enter` value:
/// none for `cd`, else the first session bind it names.
pub fn accept_bind(on_enter: &str, binds: &Vec<PluginBindInfo>) -> (r: Option<usize>)
    ensures
        if on_enter@ == "cd"@ {
            r is None
        } else {
            match r {
                Some(k) => find_first(bind_infos(binds@), bind_named(on_enter@)) is Some && k
                    == first_match(bind_infos(binds@), bind_named(on_enter@)),
                None => find_first(bind_infos(binds@), bind_named(on_enter@)) is None,
            }
        },
{
    if crate::text::str_eq(on_enter, "cd") {
        return None;
    }
    let ghost bi = bind_infos(binds@);
    let mut i: usize = 0;
    while i < binds.len()
        invariant
            i <= binds@.len(),
            bi == bind_infos(binds@),
            on_enter@ != "cd"@,
            forall|j: int| 0 <= j < i ==> !bind_named(on_enter@)(#[trigger] bi[j]),
        decreases binds.len() - i,
    {
        let b = &binds[i];
        if crate::text::str_eq(b.label.as_str(), on_enter) || crate::text::str_eq(
            b.bind_name.as_str(),
            on_enter,
        ) || crate::text::str_eq(b.plugin_name.as_str(), on_enter) {
            proof {
                lemma_first_match_is(bi, bind_named(on_enter@), i as int);
            }
            return Some(i);
        }
        i += 1;
    }
    proof {
        lemma_first_match_is(bi, bind_named(on_enter@), i as int);
    }
    None
}

/// The question asked before deleting a session: plain, or naming the
/// dirty worktrees (in their `Debug` form).
pub fn delete_prompt(name: &str, dirty: &Vec<String>) -> (r: String)
    ensures
        r@ == if dirty@.len() == 0 {
            "Delete session '"@ + name@ + "'?"@
        } else {
            "Worktree(s) "@ + crate::config::debug_list(views(dirty@))
                + " have uncommitted changes. Delete anyway?"@
        },
{
    if dirty.len() == 0 {
        crate::text::concat3("Delete session '", name, "'?")
    } else {
        let d = crate::config::debug_strings(dirty);
        crate::text::concat3("Worktree(s) ", d.as_str(), " have uncommitted changes. Delete anyway?")
    }
}

/// A rename is made only to a non-empty name other than the current one.
pub fn rename_wanted(current: &str, new_name: &str) -> (r: bool)
    ensures
        r == (new_name@.len() > 0 && new_name@ != current@),
{
    new_name.unicode_len() > 0 && !crate::text::str_eq(new_name, current)
}

} // verus!
