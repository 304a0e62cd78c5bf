//! The browser's top-level views and the keys that switch between them.
use vstd::prelude::*;

use crate::config::model::KeybindsConfig;
use crate::error::EzError;
use crate::plugin::{all_views, view_infos, view_named, InfoView, LoadedPlugin, PluginViewInfo};
use crate::search::{find_first, lemma_first_match_is};
use crate::text::{ascii_lower, views};
use crate::browser::SortMode;
use crate::recency::{keyed, recent_first, sort_recent_first};
use crate::repo::model::RepoEntry;

verus! {

/// The repositories as the repo view lists them: in registration order, or
/// most recently used first (never-used last, ties in registration order).
/// Each repository comes with its last access.
pub open spec fn repo_view_order(s: Seq<(Option<Seq<char>>, RepoEntry)>, mode: SortMode) -> Seq<RepoEntry> {
    let o = match mode {
        SortMode::Lru => recent_first(s),
        SortMode::Alpha => s,
    };
    o.map_values(|p: (Option<Seq<char>>, RepoEntry)| p.1)
}

/// Order the repositories for the repo view.
pub fn order_repos(stamped: Vec<(Option<String>, RepoEntry)>, mode: SortMode) -> (r: Vec<RepoEntry>)
    ensures
        r@ == repo_view_order(keyed(stamped@), mode),
{
    let mut rest = match mode {
        SortMode::Lru => sort_recent_first(stamped),
        SortMode::Alpha => stamped,
    };
    let ghost o = keyed(rest@);
    let ghost want = repo_view_order(keyed(stamped@), mode);
    assert(want =~= o.map_values(|p: (Option<Seq<char>>, RepoEntry)| p.1));
    let ghost n = rest@.len();
    let mut out: Vec<RepoEntry> = Vec::new();
    while rest.len() > 0
        invariant
            out@.len() + rest@.len() == n,
            o.len() == n,
            want == o.map_values(|p: (Option<Seq<char>>, RepoEntry)| p.1),
            keyed(rest@) == o.subrange(out@.len() as int, n as int),
            out@ == want.subrange(0, out@.len() as int),
        decreases rest.len(),
    {
        let ghost old_rest = rest@;
        let ghost before = out@;
        let (_, e) = rest.remove(0);
        proof {
            assert(keyed(old_rest)[0].1 == e);
            assert(o[before.len() as int] == keyed(old_rest)[0]);
            assert(keyed(rest@) =~= keyed(old_rest).subrange(1, old_rest.len() as int));
        }
        out.push(e);
        assert(out@ =~= want.subrange(0, out@.len() as int));
    }
    assert(want.subrange(0, n as int) =~= want);
    out
}

/// Top-level view modes selectable via keybinds.
#[derive(Debug)]
pub enum ViewMode {
    Tree,
    Workspace,
    Repo,
    Owner,
    Label,
    /// A view provided by a plugin.
    Plugin { view_name: String, plugin_name: String },
}

/// Result of a single view render.
#[derive(Debug)]
pub enum Outcome {
    Done,
    Switch(ViewMode),
}

/// The core view a (lower-case) flag names.
pub open spec fn core_mode(l: Seq<char>) -> Option<ViewMode> {
    if l == "tree"@ || l == "t"@ {
        Some(ViewMode::Tree)
    } else if l == "workspace"@ || l == "ws"@ || l == "w"@ {
        Some(ViewMode::Workspace)
    } else if l == "repo"@ || l == "repos"@ || l == "r"@ {
        Some(ViewMode::Repo)
    } else if l == "owner"@ || l == "owners"@ || l == "o"@ {
        Some(ViewMode::Owner)
    } else if l == "label"@ || l == "labels"@ || l == "l"@ {
        Some(ViewMode::Label)
    } else {
        None
    }
}

/// The message for a flag that names no view.
pub open spec fn unknown_view_message(l: Seq<char>) -> Seq<char> {
    "unknown view '"@ + l
        + "' — expected one of: tree, workspace, repo, owner, label (or a plugin view)"@
}

/// A plugin view mode with the names of this view entry.
pub open spec fn is_plugin_mode(m: ViewMode, v: InfoView) -> bool {
    m matches ViewMode::Plugin { view_name, plugin_name } && view_name@ == v.name
        && plugin_name@ == v.plugin
}

impl ViewMode {
    /// The view a `--select-by` flag (or the configured default) names, in
    /// any ASCII case: a core view by its name or short forms, else a plugin
    /// view by its name.
    pub fn from_flag(v: &str, plugins: &Vec<LoadedPlugin>) -> (r: Result<ViewMode, EzError>)
        ensures
            ({
                let l = ascii_lower(v@);
                match core_mode(l) {
                    Some(m) => r == Ok::<ViewMode, EzError>(m),
                    None => match find_first(all_views(plugins@), view_named(l)) {
                        Some(pv) => r matches Ok(m) && is_plugin_mode(m, pv),
                        None => r matches Err(EzError::Config(msg)) && msg@
                            == unknown_view_message(l),
                    },
                }
            }),
    {
        let lower = crate::text::to_ascii_lower(v);
        let l = lower.as_str();
        let eq = |a: &str| -> (b: bool)
            ensures
                b == (l@ == a@),
            { crate::text::str_eq(l, a) };
        if eq("tree") || eq("t") {
            Ok(ViewMode::Tree)
        } else if eq("workspace") || eq("ws") || eq("w") {
            Ok(ViewMode::Workspace)
        } else if eq("repo") || eq("repos") || eq("r") {
            Ok(ViewMode::Repo)
        } else if eq("owner") || eq("owners") || eq("o") {
            Ok(ViewMode::Owner)
        } else if eq("label") || eq("labels") || eq("l") {
            Ok(ViewMode::Label)
        } else {
            match crate::plugin::find_plugin_view(l, plugins) {
                Some(pv) => Ok(ViewMode::Plugin { view_name: pv.view_name, plugin_name: pv.plugin_name }),
                None => {
                    let msg = crate::text::concat3(
                        "unknown view '",
                        l,
                        "' — expected one of: tree, workspace, repo, owner, label (or a plugin view)",
                    );
                    Err(EzError::Config(msg))
                },
            }
        }
    }
}

/// The keys of the core views.
pub open spec fn core_view_keys(kb: KeybindsConfig) -> Seq<Seq<char>> {
    seq![kb.view_tree@, kb.view_workspace@, kb.view_repo@, kb.view_owner@, kb.view_label@]
}

/// Keys registered for view-switching: the core view keys, then each plugin
/// view's key.
pub fn view_switch_keys(kb: &KeybindsConfig, plugin_views: &Vec<PluginViewInfo>) -> (r: Vec<String>)
    ensures
        views(r@) == core_view_keys(*kb) + view_infos(plugin_views@).map_values(
            |v: InfoView| v.key,
        ),
{
    let mut keys: Vec<String> = Vec::new();
    keys.push(kb.view_tree.clone());
    keys.push(kb.view_workspace.clone());
    keys.push(kb.view_repo.clone());
    keys.push(kb.view_owner.clone());
    keys.push(kb.view_label.clone());
    let ghost core = core_view_keys(*kb);
    let ghost pk = view_infos(plugin_views@).map_values(|v: InfoView| v.key);
    assert(views(keys@) =~= core + pk.subrange(0, 0));
    let mut i: usize = 0;
    while i < plugin_views.len()
        invariant
            i <= plugin_views@.len(),
            core == core_view_keys(*kb),
            pk == view_infos(plugin_views@).map_values(|v: InfoView| v.key),
            views(keys@) == core + pk.subrange(0, i as int),
        decreases plugin_views.len() - i,
    {
        assert(pk[i as int] == plugin_views@[i as int].key@);
        let ghost prev = views(keys@);
        keys.push(plugin_views[i].key.clone());
        assert(views(keys@) =~= prev.push(pk[i as int]));
        assert(pk.subrange(0, i + 1) =~= pk.subrange(0, i as int).push(pk[i as int]));
        i += 1;
        assert(views(keys@) =~= core + pk.subrange(0, i as int));
    }
    assert(pk.subrange(0, i as int) =~= pk);
    keys
}

/// Plugin view entries switched to by this key.
pub open spec fn key_is(key: Seq<char>) -> spec_fn(InfoView) -> bool {
    |v: InfoView| v.key == key
}

/// Map a pressed key to a view switch, if it matches any view
/// keybind; core views are checked first, then plugin views in order.
pub fn match_view_switch(kb: &KeybindsConfig, plugin_views: &Vec<PluginViewInfo>, key: &str) -> (r:
    Option<ViewMode>)
    ensures
        ({
            if key@ == kb.view_tree@ {
                r == Some(ViewMode::Tree)
            } else if key@ == kb.view_workspace@ {
                r == Some(ViewMode::Workspace)
            } else if key@ == kb.view_repo@ {
                r == Some(ViewMode::Repo)
            } else if key@ == kb.view_owner@ {
                r == Some(ViewMode::Owner)
            } else if key@ == kb.view_label@ {
                r == Some(ViewMode::Label)
            } else {
                match find_first(view_infos(plugin_views@), key_is(key@)) {
                    Some(pv) => r matches Some(m) && is_plugin_mode(m, pv),
                    None => r is None,
                }
            }
        }),
{
    if crate::text::str_eq(key, kb.view_tree.as_str()) {
        Some(ViewMode::Tree)
    } else if crate::text::str_eq(key, kb.view_workspace.as_str()) {
        Some(ViewMode::Workspace)
    } else if crate::text::str_eq(key, kb.view_repo.as_str()) {
        Some(ViewMode::Repo)
    } else if crate::text::str_eq(key, kb.view_owner.as_str()) {
        Some(ViewMode::Owner)
    } else if crate::text::str_eq(key, kb.view_label.as_str()) {
        Some(ViewMode::Label)
    } else {
        let ghost vi = view_infos(plugin_views@);
        let mut i: usize = 0;
        while i < plugin_views.len()
            invariant
                i <= plugin_views@.len(),
                vi == view_infos(plugin_views@),
                key@ != kb.view_tree@,
                key@ != kb.view_workspace@,
                key@ != kb.view_repo@,
                key@ != kb.view_owner@,
                key@ != kb.view_label@,
                forall|j: int| 0 <= j < i ==> !key_is(key@)(#[trigger] vi[j]),
            decreases plugin_views.len() - i,
        {
            if crate::text::str_eq(key, plugin_views[i].key.as_str()) {
                proof {
                    lemma_first_match_is(vi, key_is(key@), i as int);
                }
                return Some(
                    ViewMode::Plugin {
                        view_name: plugin_views[i].view_name.clone(),
                        plugin_name: plugin_views[i].plugin_name.clone(),
                    },
                );
            }
            i += 1;
        }
        proof {
            lemma_first_match_is(vi, key_is(key@), i as int);
        }
        None
    }
}

/// ` key:label` for each plugin view, in order.
pub open spec fn plugin_view_hints(vs: Seq<InfoView>) -> Seq<char>
    decreases vs.len(),
{
    if vs.len() == 0 {
        Seq::empty()
    } else {
        plugin_view_hints(vs.drop_last()) + " "@ + vs.last().key + ":"@ + vs.last().label
    }
}

/// The header line of a view: the current view and the switch keys.
pub open spec fn header_text(current: Seq<char>, kb: KeybindsConfig, vs: Seq<InfoView>) -> Seq<char> {
    "view: "@ + current + " │ "@ + kb.view_tree@ + ":tree "@ + kb.view_workspace@
        + ":workspace "@ + kb.view_repo@ + ":repo "@ + kb.view_owner@ + ":owner "@
        + kb.view_label@ + ":label"@ + plugin_view_hints(vs)
}

/// The header line of a view.
pub fn view_header(current: &str, kb: &KeybindsConfig, plugin_views: &Vec<PluginViewInfo>) -> (r:
    String)
    ensures
        r@ == header_text(current@, *kb, view_infos(plugin_views@)),
{
    let mut header = String::new();
    header.append("view: ");
    header.append(current);
    header.append(" │ ");
    header.append(kb.view_tree.as_str());
    header.append(":tree ");
    header.append(kb.view_workspace.as_str());
    header.append(":workspace ");
    header.append(kb.view_repo.as_str());
    header.append(":repo ");
    header.append(kb.view_owner.as_str());
    header.append(":owner ");
    header.append(kb.view_label.as_str());
    header.append(":label");
    let ghost base = header@;
    let ghost vi = view_infos(plugin_views@);
    assert(base =~= header_text(current@, *kb, Seq::empty()));
    assert(vi.subrange(0, 0) =~= Seq::<InfoView>::empty());
    let mut i: usize = 0;
    while i < plugin_views.len()
        invariant
            i <= plugin_views@.len(),
            vi == view_infos(plugin_views@),
            base == header_text(current@, *kb, Seq::empty()),
            header@ == base + plugin_view_hints(vi.subrange(0, i as int)),
        decreases plugin_views.len() - i,
    {
        header.append(" ");
        header.append(plugin_views[i].key.as_str());
        header.append(":");
        header.append(plugin_views[i].label.as_str());
        proof {
            let pre = vi.subrange(0, i + 1);
            assert(pre.drop_last() =~= vi.subrange(0, i as int));
            assert(pre.last() == plugin_views@[i as int]@);
        }
        i += 1;
        assert(header@ =~= base + plugin_view_hints(vi.subrange(0, i as int)));
    }
    assert(vi.subrange(0, i as int) =~= vi);
    assert(header@ =~= header_text(current@, *kb, vi));
    header
}

} // verus!
