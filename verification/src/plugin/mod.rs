//! Plugins: which views and binds the enabled plugins offer, and how their
//! replies change a session.
pub mod model;
pub mod protocol;
pub mod runner;

use vstd::prelude::*;

use crate::config::model::{EzConfig, KeybindsConfig, PluginsConfig};
use crate::error::EzError;
use crate::session::model::{lookup, pairs_view, Session, SessionTree, SessionView};
use crate::session::tree::id_is;
use crate::search::{first_match, lemma_first_match};
use crate::text::views;
use model::{PluginBind, PluginView};
use protocol::SessionMutations;

verus! {

/// Info about a plugin view collected from manifests, used by the browser.
#[derive(Debug)]
pub struct PluginViewInfo {
    pub view_name: String,
    pub plugin_name: String,
    pub key: String,
    pub label: String,
}

/// Info about a plugin bind collected from manifests, used by the browser.
#[derive(Debug)]
pub struct PluginBindInfo {
    pub bind_name: String,
    pub plugin_name: String,
    pub key: String,
    pub label: String,
}

/// The text of a view or bind entry: name, plugin, key, label.
pub struct InfoView {
    pub name: Seq<char>,
    pub plugin: Seq<char>,
    pub key: Seq<char>,
    pub label: Seq<char>,
}

impl View for PluginViewInfo {
    type V = InfoView;

    open spec fn view(&self) -> InfoView {
        InfoView {
            name: self.view_name@,
            plugin: self.plugin_name@,
            key: self.key@,
            label: self.label@,
        }
    }
}

impl View for PluginBindInfo {
    type V = InfoView;

    open spec fn view(&self) -> InfoView {
        InfoView {
            name: self.bind_name@,
            plugin: self.plugin_name@,
            key: self.key@,
            label: self.label@,
        }
    }
}

pub open spec fn view_infos(s: Seq<PluginViewInfo>) -> Seq<InfoView> {
    s.map_values(|x: PluginViewInfo| x@)
}

pub open spec fn bind_infos(s: Seq<PluginBindInfo>) -> Seq<InfoView> {
    s.map_values(|x: PluginBindInfo| x@)
}

/// An enabled plugin whose manifest was found, with what it declares.
#[derive(Debug)]
pub struct LoadedPlugin {
    pub name: String,
    pub views: Vec<PluginView>,
    pub binds: Vec<PluginBind>,
}

/// The keys of the core keybinds, which plugin views and binds may not take.
pub open spec fn core_keys(kb: KeybindsConfig) -> Seq<Seq<char>> {
    seq![
        kb.view_tree@,
        kb.view_workspace@,
        kb.view_repo@,
        kb.view_owner@,
        kb.view_label@,
        kb.new_session@,
        kb.delete_session@,
        kb.rename_session@,
        kb.edit_labels@,
    ]
}

/// The keys of the core keybinds.
pub fn core_keybind_keys(kb: &KeybindsConfig) -> (r: Vec<String>)
    ensures
        views(r@) == core_keys(*kb),
{
    let mut v: Vec<String> = Vec::new();
    v.push(kb.view_tree.clone());
    v.push(kb.view_workspace.clone());
    v.push(kb.view_repo.clone());
    v.push(kb.view_owner.clone());
    v.push(kb.view_label.clone());
    v.push(kb.new_session.clone());
    v.push(kb.delete_session.clone());
    v.push(kb.rename_session.clone());
    v.push(kb.edit_labels.clone());
    assert(views(v@) =~= core_keys(*kb));
    v
}

/// The views of one plugin offered in `context`, in manifest order, without
/// those whose key a core keybind holds.
pub open spec fn kept_views(
    plugin: Seq<char>,
    vs: Seq<PluginView>,
    context: Seq<char>,
    core: Seq<Seq<char>>,
) -> Seq<InfoView>
    decreases vs.len(),
{
    if vs.len() == 0 {
        Seq::empty()
    } else {
        let prev = kept_views(plugin, vs.drop_last(), context, core);
        let v = vs.last();
        if views(v.contexts@).contains(context) && !core.contains(v.key@) {
            prev.push(InfoView { name: v.name@, plugin: plugin, key: v.key@, label: v.label@ })
        } else {
            prev
        }
    }
}

/// The views of all plugins offered in `context`, plugin by plugin.
pub open spec fn collected_views(
    plugins: Seq<LoadedPlugin>,
    context: Seq<char>,
    core: Seq<Seq<char>>,
) -> Seq<InfoView>
    decreases plugins.len(),
{
    if plugins.len() == 0 {
        Seq::empty()
    } else {
        collected_views(plugins.drop_last(), context, core) + kept_views(
            plugins.last().name@,
            plugins.last().views@,
            context,
            core,
        )
    }
}

/// The binds of one plugin active in `context`, in manifest order, without
/// those whose key a core keybind holds.
pub open spec fn kept_binds(
    plugin: Seq<char>,
    bs: Seq<PluginBind>,
    context: Seq<char>,
    core: Seq<Seq<char>>,
) -> Seq<InfoView>
    decreases bs.len(),
{
    if bs.len() == 0 {
        Seq::empty()
    } else {
        let prev = kept_binds(plugin, bs.drop_last(), context, core);
        let b = bs.last();
        if views(b.contexts@).contains(context) && !core.contains(b.key@) {
            prev.push(InfoView { name: b.name@, plugin: plugin, key: b.key@, label: b.label@ })
        } else {
            prev
        }
    }
}

/// The binds of all plugins active in `context`, plugin by plugin.
pub open spec fn collected_binds(
    plugins: Seq<LoadedPlugin>,
    context: Seq<char>,
    core: Seq<Seq<char>>,
) -> Seq<InfoView>
    decreases plugins.len(),
{
    if plugins.len() == 0 {
        Seq::empty()
    } else {
        collected_binds(plugins.drop_last(), context, core) + kept_binds(
            plugins.last().name@,
            plugins.last().binds@,
            context,
            core,
        )
    }
}

/// Collect all plugin views of the enabled plugins for a given context.
/// Views whose key conflicts with a core keybind are left out.
pub fn collect_plugin_views(context: &str, config: &EzConfig, plugins: &Vec<LoadedPlugin>) -> (r: Vec<
    PluginViewInfo,
>)
    ensures
        view_infos(r@) == collected_views(plugins@, context@, core_keys(config.keybinds)),
{
    let core = core_keybind_keys(&config.keybinds);
    let ghost cv = core_keys(config.keybinds);
    let mut out: Vec<PluginViewInfo> = Vec::new();
    let mut p: usize = 0;
    assert(view_infos(out@) =~= Seq::<InfoView>::empty());
    assert(plugins@.subrange(0, 0) =~= Seq::<LoadedPlugin>::empty());
    while p < plugins.len()
        invariant
            p <= plugins@.len(),
            views(core@) == cv,
            view_infos(out@) == collected_views(plugins@.subrange(0, p as int), context@, cv),
        decreases plugins.len() - p,
    {
        let plugin = &plugins[p];
        let ghost base = view_infos(out@);
        let mut i: usize = 0;
        assert(plugin.views@.subrange(0, 0) =~= Seq::<PluginView>::empty());
        assert(base + Seq::<InfoView>::empty() =~= base);
        while i < plugin.views.len()
            invariant
                i <= plugin.views@.len(),
                views(core@) == cv,
                view_infos(out@) == base + kept_views(
                    plugin.name@,
                    plugin.views@.subrange(0, i as int),
                    context@,
                    cv,
                ),
            decreases plugin.views.len() - i,
        {
            let v = &plugin.views[i];
            proof {
                let pre = plugin.views@.subrange(0, i + 1);
                assert(pre.drop_last() =~= plugin.views@.subrange(0, i as int));
                assert(pre.last() == *v);
            }
            if crate::text::contains_str(&v.contexts, context) && !crate::text::contains_str(
                &core,
                v.key.as_str(),
            ) {
                let ghost prev = view_infos(out@);
                let info = PluginViewInfo {
                    view_name: v.name.clone(),
                    plugin_name: plugin.name.clone(),
                    key: v.key.clone(),
                    label: v.label.clone(),
                };
                let ghost iv = info@;
                out.push(info);
                assert(view_infos(out@) =~= prev.push(iv));
            }
            i += 1;
        }
        proof {
            let pre = plugins@.subrange(0, p + 1);
            assert(pre.drop_last() =~= plugins@.subrange(0, p as int));
            assert(pre.last() == *plugin);
            assert(plugin.views@.subrange(0, i as int) =~= plugin.views@);
        }
        p += 1;
    }
    assert(plugins@.subrange(0, p as int) =~= plugins@);
    out
}

/// Collect all plugin action binds of the enabled plugins for a given
/// context. Binds whose key conflicts with a core keybind are left out.
pub fn collect_plugin_binds(context: &str, config: &EzConfig, plugins: &Vec<LoadedPlugin>) -> (r: Vec<
    PluginBindInfo,
>)
    ensures
        bind_infos(r@) == collected_binds(plugins@, context@, core_keys(config.keybinds)),
{
    let core = core_keybind_keys(&config.keybinds);
    let ghost cv = core_keys(config.keybinds);
    let mut out: Vec<PluginBindInfo> = Vec::new();
    let mut p: usize = 0;
    assert(bind_infos(out@) =~= Seq::<InfoView>::empty());
    assert(plugins@.subrange(0, 0) =~= Seq::<LoadedPlugin>::empty());
    while p < plugins.len()
        invariant
            p <= plugins@.len(),
            views(core@) == cv,
            bind_infos(out@) == collected_binds(plugins@.subrange(0, p as int), context@, cv),
        decreases plugins.len() - p,
    {
        let plugin = &plugins[p];
        let ghost base = bind_infos(out@);
        let mut i: usize = 0;
        assert(plugin.binds@.subrange(0, 0) =~= Seq::<PluginBind>::empty());
        assert(base + Seq::<InfoView>::empty() =~= base);
        while i < plugin.binds.len()
            invariant
                i <= plugin.binds@.len(),
                views(core@) == cv,
                bind_infos(out@) == base + kept_binds(
                    plugin.name@,
                    plugin.binds@.subrange(0, i as int),
                    context@,
                    cv,
                ),
            decreases plugin.binds.len() - i,
        {
            let b = &plugin.binds[i];
            proof {
                let pre = plugin.binds@.subrange(0, i + 1);
                assert(pre.drop_last() =~= plugin.binds@.subrange(0, i as int));
                assert(pre.last() == *b);
            }
            if crate::text::contains_str(&b.contexts, context) && !crate::text::contains_str(
                &core,
                b.key.as_str(),
            ) {
                let ghost prev = bind_infos(out@);
                let info = PluginBindInfo {
                    bind_name: b.name.clone(),
                    plugin_name: plugin.name.clone(),
                    key: b.key.clone(),
                    label: b.label.clone(),
                };
                let ghost iv = info@;
                out.push(info);
                assert(bind_infos(out@) =~= prev.push(iv));
            }
            i += 1;
        }
        proof {
            let pre = plugins@.subrange(0, p + 1);
            assert(pre.drop_last() =~= plugins@.subrange(0, p as int));
            assert(pre.last() == *plugin);
            assert(plugin.binds@.subrange(0, i as int) =~= plugin.binds@);
        }
        p += 1;
    }
    assert(plugins@.subrange(0, p as int) =~= plugins@);
    out
}

/// All views of all plugins, in order, whatever their contexts.
pub open spec fn all_views(plugins: Seq<LoadedPlugin>) -> Seq<InfoView>
    decreases plugins.len(),
{
    if plugins.len() == 0 {
        Seq::empty()
    } else {
        all_views(plugins.drop_last()) + plugins.last().views@.map_values(
            |v: PluginView|
                InfoView {
                    name: v.name@,
                    plugin: plugins.last().name@,
                    key: v.key@,
                    label: v.label@,
                },
        )
    }
}

/// Views with this name.
pub open spec fn view_named(name: Seq<char>) -> spec_fn(InfoView) -> bool {
    |v: InfoView| v.name == name
}

/// Look up a plugin view by name across the enabled plugins (the first one
/// with that name).
pub fn find_plugin_view(name: &str, plugins: &Vec<LoadedPlugin>) -> (r: Option<PluginViewInfo>)
    ensures
        match r {
            Some(v) => crate::search::find_first(all_views(plugins@), view_named(name@)) == Some(
                v@,
            ),
            None => crate::search::find_first(all_views(plugins@), view_named(name@)) is None,
        },
{
    let ghost pred = view_named(name@);
    let mut p: usize = 0;
    assert(plugins@.subrange(0, 0) =~= Seq::<LoadedPlugin>::empty());
    while p < plugins.len()
        invariant
            p <= plugins@.len(),
            pred == view_named(name@),
            forall|j: int|
                0 <= j < all_views(plugins@.subrange(0, p as int)).len() ==> !pred(
                    #[trigger] all_views(plugins@.subrange(0, p as int))[j],
                ),
        decreases plugins.len() - p,
    {
        let plugin = &plugins[p];
        let ghost before = all_views(plugins@.subrange(0, p as int));
        let ghost mine = plugin.views@.map_values(
            |v: PluginView|
                InfoView { name: v.name@, plugin: plugin.name@, key: v.key@, label: v.label@ },
        );
        proof {
            let pre = plugins@.subrange(0, p + 1);
            assert(pre.drop_last() =~= plugins@.subrange(0, p as int));
            assert(pre.last() == *plugin);
            assert(all_views(pre) == before + mine);
        }
        let mut i: usize = 0;
        while i < plugin.views.len()
            invariant
                i <= plugin.views@.len(),
                p < plugins@.len(),
                *plugin == plugins@[p as int],
                before == all_views(plugins@.subrange(0, p as int)),
                before + mine == all_views(plugins@.subrange(0, p + 1)),
                pred == view_named(name@),
                mine.len() == plugin.views@.len(),
                forall|j: int| 0 <= j < i ==> !pred(#[trigger] mine[j]),
                forall|j: int| 0 <= j < before.len() ==> !pred(#[trigger] before[j]),
                mine == plugin.views@.map_values(
                    |v: PluginView|
                        InfoView {
                            name: v.name@,
                            plugin: plugin.name@,
                            key: v.key@,
                            label: v.label@,
                        },
                ),
            decreases plugin.views.len() - i,
        {
            let v = &plugin.views[i];
            if crate::text::str_eq(v.name.as_str(), name) {
                let info = PluginViewInfo {
                    view_name: v.name.clone(),
                    plugin_name: plugin.name.clone(),
                    key: v.key.clone(),
                    label: v.label.clone(),
                };
                proof {
                    let all = all_views(plugins@);
                    let k = before.len() + i;
                    // `all` starts with `before + mine`.
                    crate::plugin::lemma_all_views_prefix(plugins@, p + 1);
                    let n = (before.len() + mine.len()) as int;
                    assert(all.subrange(0, n) == before + mine);
                    assert(all.subrange(0, n)[k] == all[k]);
                    assert((before + mine)[k] == mine[i as int]);
                    assert forall|j: int| 0 <= j < k implies !pred(#[trigger] all[j]) by {
                        assert(all.subrange(0, n)[j] == all[j]);
                        if j < before.len() {
                            assert((before + mine)[j] == before[j]);
                        } else {
                            assert((before + mine)[j] == mine[j - before.len()]);
                        }
                    }
                    crate::search::lemma_first_match_is(all, pred, k);
                }
                return Some(info);
            }
            i += 1;
        }
        proof {
            let pre = plugins@.subrange(0, p + 1);
            assert forall|j: int| 0 <= j < all_views(pre).len() implies !pred(
                #[trigger] all_views(pre)[j],
            ) by {
                if j < before.len() {
                    assert(all_views(pre)[j] == before[j]);
                } else {
                    assert(all_views(pre)[j] == mine[j - before.len()]);
                }
            }
        }
        p += 1;
    }
    proof {
        assert(plugins@.subrange(0, p as int) =~= plugins@);
        let all = all_views(plugins@);
        crate::search::lemma_first_match_is(all, pred, all.len() as int);
    }
    None
}

/// `all_views` of a prefix is a prefix of `all_views`.
pub proof fn lemma_all_views_prefix(plugins: Seq<LoadedPlugin>, n: int)
    requires
        0 <= n <= plugins.len(),
    ensures
        all_views(plugins.subrange(0, n)).len() <= all_views(plugins).len(),
        all_views(plugins).subrange(0, all_views(plugins.subrange(0, n)).len() as int)
            == all_views(plugins.subrange(0, n)),
    decreases plugins.len(),
{
    if n == plugins.len() {
        assert(plugins.subrange(0, n) =~= plugins);
        assert(all_views(plugins).subrange(0, all_views(plugins).len() as int) =~= all_views(
            plugins,
        ));
    } else {
        lemma_all_views_prefix(plugins.drop_last(), n);
        assert(plugins.drop_last().subrange(0, n) =~= plugins.subrange(0, n));
        let a = all_views(plugins.drop_last());
        let m = all_views(plugins.subrange(0, n)).len() as int;
        assert(all_views(plugins).subrange(0, m) =~= a.subrange(0, m));
    }
}

/// Where plugins live: the configured directory, or the default one.
pub fn resolve_plugins_dir(config: &EzConfig) -> (r: Result<String, EzError>)
    ensures
        match config.plugins.plugin_dir {
            Some(d) => r matches Ok(p) && p@ == d@,
            None => match r {
                Ok(p) => exists|c: Seq<char>|
                    crate::paths::is_ez_dir(c) && p@ == crate::paths::join(c, "plugins"@),
                Err(e) => e is Path,
            },
        },
{
    match &config.plugins.plugin_dir {
        Some(d) => Ok(d.clone()),
        None => crate::paths::plugins_dir(),
    }
}

/// Entries with this key.
pub open spec fn key_is(key: Seq<char>) -> spec_fn((Seq<char>, Seq<char>)) -> bool {
    |p: (Seq<char>, Seq<char>)| p.0 == key
}

/// The list with `key` set to `value`: an entry with the key gets the value,
/// otherwise one is appended (`HashMap::insert`).
pub open spec fn set_pair(v: Seq<(Seq<char>, Seq<char>)>, key: Seq<char>, value: Seq<char>) -> Seq<
    (Seq<char>, Seq<char>),
> {
    let k = first_match(v, key_is(key));
    if k < v.len() {
        v.update(k, (key, value))
    } else {
        v.push((key, value))
    }
}

/// The list after setting each of `kvs` in turn.
pub open spec fn set_pairs(
    v: Seq<(Seq<char>, Seq<char>)>,
    kvs: Seq<(Seq<char>, Seq<char>)>,
) -> Seq<(Seq<char>, Seq<char>)>
    decreases kvs.len(),
{
    if kvs.len() == 0 {
        v
    } else {
        set_pair(set_pairs(v, kvs.drop_last()), kvs.last().0, kvs.last().1)
    }
}

/// Set `key` to `value` in a key/value list.
pub fn put_pair(v: &mut Vec<(String, String)>, key: &str, value: &str)
    ensures
        pairs_view(final(v)@) == set_pair(pairs_view(old(v)@), key@, value@),
{
    let ghost pred = key_is(key@);
    let ghost pv = pairs_view(v@);
    let mut i: usize = 0;
    while i < v.len()
        invariant
            i <= v@.len(),
            pv == pairs_view(v@),
            v@ == old(v)@,
            pred == key_is(key@),
            forall|j: int| 0 <= j < i ==> !pred(#[trigger] pv[j]),
        decreases v.len() - i,
    {
        if crate::text::str_eq(v[i].0.as_str(), key) {
            proof {
                crate::search::lemma_first_match_is(pv, pred, i as int);
            }
            let k = crate::text::owned(key);
            let x = crate::text::owned(value);
            v.set(i, (k, x));
            assert(pairs_view(v@) =~= pv.update(i as int, (key@, value@)));
            return;
        }
        i += 1;
    }
    proof {
        crate::search::lemma_first_match_is(pv, pred, i as int);
    }
    v.push((crate::text::owned(key), crate::text::owned(value)));
    assert(pairs_view(v@) =~= pv.push((key@, value@)));
}

/// Set each pair of `kvs` in `v`, in order.
pub fn put_pairs(v: &mut Vec<(String, String)>, kvs: &Vec<(String, String)>)
    ensures
        pairs_view(final(v)@) == set_pairs(pairs_view(old(v)@), pairs_view(kvs@)),
{
    let ghost start = pairs_view(v@);
    let mut i: usize = 0;
    assert(pairs_view(kvs@).subrange(0, 0) =~= Seq::<(Seq<char>, Seq<char>)>::empty());
    while i < kvs.len()
        invariant
            i <= kvs@.len(),
            pairs_view(v@) == set_pairs(start, pairs_view(kvs@).subrange(0, i as int)),
        decreases kvs.len() - i,
    {
        put_pair(v, kvs[i].0.as_str(), kvs[i].1.as_str());
        proof {
            let pre = pairs_view(kvs@).subrange(0, i + 1);
            assert(pre.drop_last() =~= pairs_view(kvs@).subrange(0, i as int));
            assert(pre.last() == (kvs@[i as int].0@, kvs@[i as int].1@));
        }
        i += 1;
    }
    assert(pairs_view(kvs@).subrange(0, i as int) =~= pairs_view(kvs@));
}

/// `s` after a plugin's changes: the path replaced when the reply names
/// one, and the environment and plugin state entries set.
pub open spec fn mutated(s: SessionView, m: SessionMutations) -> SessionView {
    SessionView {
        path: match m.path {
            Some(p) => Some(p@),
            None => s.path,
        },
        env: set_pairs(s.env, pairs_view(m.env@)),
        plugin_state: set_pairs(s.plugin_state, pairs_view(m.plugin_state@)),
        ..s
    }
}

/// Apply a plugin's session changes to the session with this ID (the first
/// one); a tree without it is left as it is.
pub fn apply_session_mutations(tree: &mut SessionTree, session_id: &str, m: &SessionMutations)
    ensures
        ({
            let k = first_match(old(tree)@, id_is(session_id@));
            if k < old(tree)@.len() {
                final(tree)@ == old(tree)@.update(k, mutated(old(tree)@[k], *m))
            } else {
                final(tree)@ == old(tree)@
            }
        }),
{
    let k = tree.index_of_id(session_id);
    proof {
        lemma_first_match(old(tree)@, id_is(session_id@));
    }
    if k >= tree.sessions.len() {
        return;
    }
    let mut s = tree.sessions[k].copy();
    match &m.path {
        Some(p) => {
            s.path = Some(p.clone());
        },
        None => {},
    }
    put_pairs(&mut s.env, &m.env);
    put_pairs(&mut s.plugin_state, &m.plugin_state);
    let ghost sv = s@;
    assert(sv == mutated(old(tree)@[k as int], *m));
    tree.sessions.set(k, s);
    assert(tree@ =~= old(tree)@.update(k as int, sv));
}

/// A plugin's reply decides the session's directory: when it names a path
/// the session takes that path, and when it names none the session keeps its
/// own; the session's identity (ID, name, parent, labels, flags, times) is
/// never changed by a reply.
pub proof fn law_mutations_set_path(s: SessionView, m: SessionMutations)
    ensures
        mutated(s, m).path == match m.path {
            Some(p) => Some(p@),
            None => s.path,
        },
        m.path matches Some(p) ==> mutated(s, m).path == Some(p@),
        mutated(s, m).id == s.id && mutated(s, m).name == s.name && mutated(s, m).parent_id
            == s.parent_id && mutated(s, m).labels == s.labels && mutated(s, m).created_at
            == s.created_at && mutated(s, m).is_default == s.is_default && mutated(s, m).bare
            == s.bare && mutated(s, m).last_accessed == s.last_accessed,
{
}

proof fn lemma_lookup_at(v: Seq<(String, String)>, key: Seq<char>)
    ensures
        ({
            let k = first_match(pairs_view(v), key_is(key));
            &&& k < v.len() ==> lookup(v, key) == Some(v[k].1)
            &&& k >= v.len() ==> lookup(v, key) is None
        }),
    decreases v.len(),
{
    crate::search::lemma_first_match(pairs_view(v), key_is(key));
    if v.len() > 0 {
        assert(pairs_view(v).drop_first() =~= pairs_view(v.drop_first()));
        lemma_lookup_at(v.drop_first(), key);
        let k = first_match(pairs_view(v), key_is(key));
        if v[0].0@ != key {
            assert(!key_is(key)(pairs_view(v)[0]));
            assert(k == 1 + first_match(pairs_view(v.drop_first()), key_is(key)));
            if k < v.len() {
                assert(v.drop_first()[k - 1] == v[k]);
            }
        }
    }
}

proof fn lemma_first_match_same<T>(a: Seq<T>, b: Seq<T>, p: spec_fn(T) -> bool)
    requires
        a.len() == b.len(),
        forall|i: int| 0 <= i < a.len() ==> p(#[trigger] a[i]) == p(b[i]),
    ensures
        first_match(a, p) == first_match(b, p),
{
    crate::search::lemma_first_match(a, p);
    let k = first_match(a, p);
    assert forall|j: int| 0 <= j < k implies !p(#[trigger] b[j]) by {
        assert(!p(a[j]));
    }
    crate::search::lemma_first_match_is(b, p, k);
}

proof fn lemma_first_match_push<T>(a: Seq<T>, e: T, p: spec_fn(T) -> bool)
    requires
        !p(e),
    ensures
        first_match(a, p) < a.len() ==> first_match(a.push(e), p) == first_match(a, p),
        first_match(a, p) >= a.len() ==> first_match(a.push(e), p) == a.len() + 1,
{
    crate::search::lemma_first_match(a, p);
    let k = first_match(a, p);
    if k < a.len() {
        assert forall|j: int| 0 <= j < k implies !p(#[trigger] a.push(e)[j]) by {
            assert(a.push(e)[j] == a[j]);
        }
        crate::search::lemma_first_match_is(a.push(e), p, k);
    } else {
        assert forall|j: int| 0 <= j < a.len() + 1 implies !p(#[trigger] a.push(e)[j]) by {
            if j < a.len() {
                assert(a.push(e)[j] == a[j]);
            }
        }
        crate::search::lemma_first_match_is(a.push(e), p, (a.len() + 1) as int);
    }
}

/// Setting a key and then reading it gives the value written; reading any
/// other key gives what it gave before.
pub proof fn law_set_pair_then_lookup(
    v: Seq<(String, String)>,
    w: Seq<(String, String)>,
    key: Seq<char>,
    value: Seq<char>,
    other: Seq<char>,
)
    requires
        pairs_view(w) == set_pair(pairs_view(v), key, value),
        other != key,
    ensures
        lookup(w, key) matches Some(x) && x@ == value,
        match (lookup(w, other), lookup(v, other)) {
            (Some(a), Some(b)) => a@ == b@,
            (None, None) => true,
            _ => false,
        },
{
    let pv = pairs_view(v);
    let pw = pairs_view(w);
    lemma_lookup_at(v, key);
    lemma_lookup_at(w, key);
    lemma_lookup_at(v, other);
    lemma_lookup_at(w, other);
    crate::search::lemma_first_match(pv, key_is(key));
    let k = first_match(pv, key_is(key));
    if k < pv.len() {
        assert(pw == pv.update(k, (key, value)));
        assert forall|j: int| 0 <= j < j + 1 && j < pv.len() implies key_is(key)(#[trigger] pv[j])
            == key_is(key)(pw[j]) by {
            if j == k {
                assert(key_is(key)(pv[j]));
            }
        }
        assert forall|j: int| 0 <= j < pv.len() implies key_is(other)(#[trigger] pv[j]) == key_is(
            other,
        )(pw[j]) by {
            if j == k {
                assert(pv[j].0 == key);
            }
        }
        lemma_first_match_same(pv, pw, key_is(key));
        lemma_first_match_same(pv, pw, key_is(other));
        assert(pw[k].1 == value);
        let ko = first_match(pv, key_is(other));
        crate::search::lemma_first_match(pv, key_is(other));
        if ko < pv.len() {
            assert(ko != k);
            assert(pw[ko] == pv[ko]);
        }
    } else {
        assert(pw == pv.push((key, value)));
        lemma_first_match_push(pv, (key, value), key_is(other));
        crate::search::lemma_first_match(pw, key_is(key));
        assert forall|j: int| 0 <= j < pv.len() implies !key_is(key)(#[trigger] pw[j]) by {
            assert(pw[j] == pv[j]);
        }
        crate::search::lemma_first_match_is(pw, key_is(key), pv.len() as int);
        let ko = first_match(pv, key_is(other));
        crate::search::lemma_first_match(pv, key_is(other));
        if ko < pv.len() {
            assert(pw[ko] == pv[ko]);
        }
    }
}

/// What enabling a plugin did.
#[derive(Debug)]
pub enum EnableOutcome {
    AlreadyEnabled,
    Enabled,
}

/// `c` with this list of enabled plugins, every other setting as it was.
pub open spec fn with_enabled(c: EzConfig, enabled: Vec<String>) -> EzConfig {
    EzConfig { plugins: PluginsConfig { enabled: enabled, ..c.plugins }, ..c }
}

/// Enable a plugin by name: nothing to do when it is enabled already; an
/// error when it has no manifest (`has_manifest` says whether one exists);
/// else it joins the end of the enabled list.
pub fn enable_plugin(config: &mut EzConfig, name: &str, has_manifest: bool) -> (r: Result<
    EnableOutcome,
    EzError,
>)
    ensures
        if views(old(config).plugins.enabled@).contains(name@) {
            r matches Ok(EnableOutcome::AlreadyEnabled) && *final(config) == *old(config)
        } else if !has_manifest {
            (r matches Err(EzError::PluginNotFound(m)) && m@ == name@) && *final(config)
                == *old(config)
        } else {
            r matches Ok(EnableOutcome::Enabled) && *final(config) == with_enabled(
                *old(config),
                final(config).plugins.enabled,
            ) && views(final(config).plugins.enabled@) == views(old(config).plugins.enabled@).push(
                name@,
            )
        },
{
    if crate::text::contains_str(&config.plugins.enabled, name) {
        return Ok(EnableOutcome::AlreadyEnabled);
    }
    if !has_manifest {
        return Err(EzError::PluginNotFound(crate::text::owned(name)));
    }
    let ghost before = views(config.plugins.enabled@);
    config.plugins.enabled.push(crate::text::owned(name));
    assert(views(config.plugins.enabled@) =~= before.push(name@));
    Ok(EnableOutcome::Enabled)
}

/// Names other than this one.
pub open spec fn other_than(name: Seq<char>) -> spec_fn(Seq<char>) -> bool {
    |n: Seq<char>| n != name
}

/// Disable a plugin by name: every occurrence leaves the enabled list.
pub fn disable_plugin(config: &mut EzConfig, name: &str)
    ensures
        views(final(config).plugins.enabled@) == views(old(config).plugins.enabled@).filter(
            other_than(name@),
        ),
        *final(config) == with_enabled(*old(config), final(config).plugins.enabled),
{
    let ghost all = views(config.plugins.enabled@);
    let mut kept: Vec<String> = Vec::new();
    let mut i: usize = 0;
    assert(all.subrange(0, 0) =~= Seq::<Seq<char>>::empty());
    assert(views(kept@) =~= Seq::<Seq<char>>::empty().filter(other_than(name@))) by {
        reveal(Seq::filter);
    }
    while i < config.plugins.enabled.len()
        invariant
            i <= config.plugins.enabled@.len(),
            all == views(config.plugins.enabled@),
            *config == *old(config),
            views(kept@) == all.subrange(0, i as int).filter(other_than(name@)),
        decreases config.plugins.enabled.len() - i,
    {
        proof {
            crate::session::tree::lemma_filter_push(
                all.subrange(0, i as int),
                all[i as int],
                other_than(name@),
            );
            assert(all.subrange(0, i + 1) =~= all.subrange(0, i as int).push(all[i as int]));
        }
        if !crate::text::str_eq(config.plugins.enabled[i].as_str(), name) {
            let ghost prev = views(kept@);
            kept.push(config.plugins.enabled[i].clone());
            assert(views(kept@) =~= prev.push(all[i as int]));
        }
        i += 1;
    }
    assert(all.subrange(0, i as int) =~= all);
    config.plugins.enabled = kept;
}

} // verus!
