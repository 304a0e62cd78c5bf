//! Edits of a repository's sessions: creating, renaming and deleting them,
//! with the checks that come first.
use vstd::prelude::*;

use super::model::{opt_view, sviews, Session, SessionTree, SessionView};
use super::tree::{desc_walk, id_is, lemma_filter_push, name_is, rviews};
use crate::error::EzError;
use crate::search::{find_first, first_match, lemma_first_match};
use crate::text::views;

verus! {

/// A session whose worktree is kept and has uncommitted changes: not the
/// default session, with a path, and named among the dirty ones.
pub open spec fn dirty_in(ids: Seq<Seq<char>>) -> spec_fn(SessionView) -> bool {
    |s: SessionView| !s.is_default && s.path is Some && ids.contains(s.id)
}

/// A session among the given ones.
pub open spec fn listed_in(ids: Seq<Seq<char>>) -> spec_fn(SessionView) -> bool {
    |s: SessionView| ids.contains(s.id)
}

/// The names of the sessions of `s` that satisfy `p`, in order.
pub open spec fn names_where(s: Seq<SessionView>, p: spec_fn(SessionView) -> bool) -> Seq<Seq<char>> {
    s.filter(p).map_values(|x: SessionView| x.name)
}

/// Which sessions a name listing keeps.
enum Keep {
    Dirty,
    Listed,
}

spec fn keep_pred(keep: Keep, ids: Seq<Seq<char>>) -> spec_fn(SessionView) -> bool {
    match keep {
        Keep::Dirty => dirty_in(ids),
        Keep::Listed => listed_in(ids),
    }
}

fn names_kept(s: &Vec<Session>, keep: Keep, ids: &Vec<String>) -> (r: Vec<String>)
    ensures
        views(r@) == names_where(sviews(s@), keep_pred(keep, views(ids@))),
{
    let ghost p = keep_pred(keep, views(ids@));
    let ghost sv = sviews(s@);
    let mut out: Vec<String> = Vec::new();
    let mut i: usize = 0;
    assert(sv.subrange(0, 0) =~= Seq::<SessionView>::empty());
    assert(views(out@) =~= names_where(Seq::<SessionView>::empty(), p));
    while i < s.len()
        invariant
            i <= s@.len(),
            sv == sviews(s@),
            p == keep_pred(keep, views(ids@)),
            views(out@) == names_where(sv.subrange(0, i as int), p),
        decreases s.len() - i,
    {
        let listed = crate::text::contains_str(ids, s[i].id.as_str());
        let k = match keep {
            Keep::Dirty => !s[i].is_default && s[i].path.is_some() && listed,
            Keep::Listed => listed,
        };
        proof {
            assert(sv.subrange(0, i + 1) =~= sv.subrange(0, i as int).push(sv[i as int]));
            lemma_filter_push(sv.subrange(0, i as int), sv[i as int], p);
        }
        if k {
            let ghost prev = views(out@);
            out.push(s[i].name.clone());
            assert(views(out@) =~= prev.push(sv[i as int].name));
        }
        i += 1;
    }
    assert(sv.subrange(0, i as int) =~= sv);
    out
}

/// Names of the sessions in `to_reap` whose worktree has uncommitted
/// changes (`dirty_ids` lists the sessions whose worktree exists and is
/// dirty); the default session and sessions without a path are skipped.
pub fn dirty_worktrees(to_reap: &Vec<Session>, dirty_ids: &Vec<String>) -> (r: Vec<String>)
    ensures
        views(r@) == names_where(sviews(to_reap@), dirty_in(views(dirty_ids@))),
{
    names_kept(to_reap, Keep::Dirty, dirty_ids)
}

/// The sessions a cascade on `id` reaches: its descendants, then itself.
pub open spec fn cascade_of(t: Seq<SessionView>, s: SessionView) -> Seq<SessionView> {
    desc_walk(t, s.id, t.len()).push(s)
}

/// The session (with its descendants) of this ID, copied.
fn cascade_sessions(tree: &SessionTree, session_id: &str) -> (r: Option<Vec<Session>>)
    ensures
        match find_first(tree@, id_is(session_id@)) {
            Some(s) => r matches Some(v) && sviews(v@) == cascade_of(tree@, s),
            None => r is None,
        },
{
    let session = match tree.find_by_id(session_id) {
        Some(s) => s,
        None => {
            return None;
        },
    };
    let descs = tree.descendants(session.id.as_str());
    let mut v: Vec<Session> = Vec::new();
    let mut i: usize = 0;
    while i < descs.len()
        invariant
            i <= descs@.len(),
            sviews(v@) == rviews(descs@).subrange(0, i as int),
        decreases descs.len() - i,
    {
        let ghost prev = sviews(v@);
        let c = descs[i].copy();
        v.push(c);
        assert(rviews(descs@)[i as int] == descs@[i as int]@);
        assert(sviews(v@) =~= prev.push(descs@[i as int]@));
        i += 1;
        assert(sviews(v@) =~= rviews(descs@).subrange(0, i as int));
    }
    let ghost prev = sviews(v@);
    v.push(session.copy());
    assert(rviews(descs@).subrange(0, i as int) =~= rviews(descs@));
    assert(sviews(v@) =~= prev.push(session@));
    Some(v)
}

/// Names of the sessions (target and descendants) that have uncommitted
/// changes; `dirty_ids` lists the sessions whose worktree exists and is
/// dirty. An error when no session has the ID.
pub fn cascade_dirty(tree: &SessionTree, session_id: &str, dirty_ids: &Vec<String>) -> (r: Result<
    Vec<String>,
    EzError,
>)
    ensures
        match find_first(tree@, id_is(session_id@)) {
            Some(s) => r matches Ok(v) && views(v@) == names_where(
                cascade_of(tree@, s),
                dirty_in(views(dirty_ids@)),
            ),
            None => r matches Err(EzError::SessionNotFound(m)) && m@ == session_id@,
        },
{
    match cascade_sessions(tree, session_id) {
        Some(v) => Ok(dirty_worktrees(&v, dirty_ids)),
        None => Err(EzError::SessionNotFound(crate::text::owned(session_id))),
    }
}

/// Names of the sessions (target and descendants) that have unchecked TODOs
/// in their notes; `todo_ids` lists the sessions that do. An error when no
/// session has the ID.
pub fn cascade_unchecked_todos(tree: &SessionTree, session_id: &str, todo_ids: &Vec<String>) -> (r:
    Result<Vec<String>, EzError>)
    ensures
        match find_first(tree@, id_is(session_id@)) {
            Some(s) => r matches Ok(v) && views(v@) == names_where(
                cascade_of(tree@, s),
                listed_in(views(todo_ids@)),
            ),
            None => r matches Err(EzError::SessionNotFound(m)) && m@ == session_id@,
        },
{
    match cascade_sessions(tree, session_id) {
        Some(v) => Ok(names_kept(&v, Keep::Listed, todo_ids)),
        None => Err(EzError::SessionNotFound(crate::text::owned(session_id))),
    }
}

/// The order in which a deletion reaps sessions: descendants deepest-first,
/// then the session itself.
pub open spec fn reap_list(t: Seq<SessionView>, s: SessionView) -> Seq<SessionView> {
    desc_walk(t, s.id, t.len()).reverse().push(s)
}

/// The tree after removing, in turn, the first session with each ID; the
/// ID that could not be found stops it.
pub open spec fn remove_each(t: Seq<SessionView>, ids: Seq<Seq<char>>) -> (Seq<SessionView>, Option<
    Seq<char>,
>)
    decreases ids.len(),
{
    if ids.len() == 0 {
        (t, None)
    } else {
        let (t2, failed) = remove_each(t, ids.drop_last());
        if failed is Some {
            (t2, failed)
        } else {
            let k = first_match(t2, id_is(ids.last()));
            if k < t2.len() {
                (t2.remove(k), None)
            } else {
                (t2, Some(ids.last()))
            }
        }
    }
}

proof fn lemma_remove_each_stops(t: Seq<SessionView>, ids: Seq<Seq<char>>, n: int)
    requires
        0 <= n <= ids.len(),
        remove_each(t, ids.subrange(0, n)).1 is Some,
    ensures
        remove_each(t, ids).1 == remove_each(t, ids.subrange(0, n)).1,
    decreases ids.len() - n,
{
    if n < ids.len() {
        assert(ids.drop_last().subrange(0, n) =~= ids.subrange(0, n));
        lemma_remove_each_stops(t, ids.drop_last(), n);
    } else {
        assert(ids.subrange(0, n) =~= ids);
    }
}

/// The outcome of deleting a session, named by its checks in order: no such
/// session; descendants without `force`; dirty worktrees or unchecked TODOs
/// without `force`; else the cascade removed.
pub open spec fn deletion(
    t: Seq<SessionView>,
    session_id: Seq<char>,
    force: bool,
    dirty_ids: Seq<Seq<char>>,
    todo_ids: Seq<Seq<char>>,
    r: Result<Seq<SessionView>, EzError>,
    after: Seq<SessionView>,
) -> bool {
    match find_first(t, id_is(session_id)) {
        None => (r matches Err(EzError::SessionNotFound(m)) && m@ == session_id) && after == t,
        Some(s) => {
            let descs = desc_walk(t, s.id, t.len());
            let reap = reap_list(t, s);
            if descs.len() > 0 && !force {
                (r matches Err(EzError::SessionHasChildren { name, children }) && name@ == s.name
                    && views(children@) == descs.map_values(|x: SessionView| x.name)) && after == t
            } else if !force && names_where(reap, dirty_in(dirty_ids)).len() > 0 {
                (r matches Err(EzError::SessionWorktreeDirty { dirty }) && views(dirty@)
                    == names_where(reap, dirty_in(dirty_ids))) && after == t
            } else if !force && names_where(reap, listed_in(todo_ids)).len() > 0 {
                (r matches Err(EzError::SessionHasUncheckedTodos { sessions }) && views(sessions@)
                    == names_where(reap, listed_in(todo_ids))) && after == t
            } else {
                let (t2, failed) = remove_each(t, reap.map_values(|x: SessionView| x.id));
                match failed {
                    Some(id) => r matches Err(EzError::SessionNotFound(m)) && m@ == id,
                    None => r == Ok::<Seq<SessionView>, EzError>(reap) && after == t2,
                }
            }
        },
    }
}

/// Delete a session and its descendants from the tree. Without `force`, a
/// session with descendants, a dirty worktree in the cascade (`dirty_ids`)
/// or a session with unchecked TODOs (`todo_ids`) stops it. Returns the
/// reaped sessions, deepest first, for their hooks and notes.
pub fn delete_session_by_id(
    tree: &mut SessionTree,
    session_id: &str,
    force: bool,
    dirty_ids: &Vec<String>,
    todo_ids: &Vec<String>,
) -> (r: Result<Vec<Session>, EzError>)
    ensures
        deletion(
            old(tree)@,
            session_id@,
            force,
            views(dirty_ids@),
            views(todo_ids@),
            match r {
                Ok(v) => Ok(sviews(v@)),
                Err(e) => Err(e),
            },
            final(tree)@,
        ),
{
    let session = match tree.find_by_id(session_id) {
        Some(s) => s.copy(),
        None => {
            return Err(EzError::SessionNotFound(crate::text::owned(session_id)));
        },
    };
    let ghost s = session@;
    let descs = tree.descendants(session.id.as_str());
    let ghost dv = rviews(descs@);
    if descs.len() > 0 && !force {
        let mut names: Vec<String> = Vec::new();
        let mut i: usize = 0;
        while i < descs.len()
            invariant
                i <= descs@.len(),
                dv == rviews(descs@),
                views(names@) == dv.subrange(0, i as int).map_values(|x: SessionView| x.name),
            decreases descs.len() - i,
        {
            let ghost prev = views(names@);
            names.push(descs[i].name.clone());
            assert(dv[i as int] == descs@[i as int]@);
            assert(views(names@) =~= prev.push(dv[i as int].name));
            i += 1;
            assert(views(names@) =~= dv.subrange(0, i as int).map_values(
                |x: SessionView| x.name,
            ));
        }
        assert(dv.subrange(0, i as int) =~= dv);
        return Err(EzError::SessionHasChildren { name: session.name.clone(), children: names });
    }
    let mut to_reap: Vec<Session> = Vec::new();
    let mut j = descs.len();
    assert(sviews(to_reap@) =~= dv.reverse().subrange(0, 0));
    while j > 0
        invariant
            j <= descs@.len(),
            dv == rviews(descs@),
            sviews(to_reap@) == dv.reverse().subrange(0, descs@.len() - j),
        decreases j,
    {
        j -= 1;
        let ghost prev = sviews(to_reap@);
        to_reap.push(descs[j].copy());
        assert(dv[j as int] == descs@[j as int]@);
        assert(dv.reverse()[descs@.len() - j - 1] == dv[j as int]);
        assert(sviews(to_reap@) =~= prev.push(dv[j as int]));
        assert(sviews(to_reap@) =~= dv.reverse().subrange(0, descs@.len() - j));
    }
    assert(dv.reverse().subrange(0, descs@.len() as int) =~= dv.reverse());
    let ghost before_self = sviews(to_reap@);
    to_reap.push(session.copy());
    assert(sviews(to_reap@) =~= before_self.push(s));
    let ghost reap = sviews(to_reap@);
    if !force {
        let dirty = dirty_worktrees(&to_reap, dirty_ids);
        if dirty.len() > 0 {
            return Err(EzError::SessionWorktreeDirty { dirty });
        }
        let todos = names_kept(&to_reap, Keep::Listed, todo_ids);
        if todos.len() > 0 {
            return Err(EzError::SessionHasUncheckedTodos { sessions: todos });
        }
    }
    let ghost ids = reap.map_values(|x: SessionView| x.id);
    let ghost start = tree@;
    let mut k: usize = 0;
    assert(ids.subrange(0, 0) =~= Seq::<Seq<char>>::empty());
    while k < to_reap.len()
        invariant
            k <= to_reap@.len(),
            reap == sviews(to_reap@),
            start == old(tree)@,
            find_first(start, id_is(session_id@)) == Some(s),
            reap == reap_list(start, s),
            dv == desc_walk(start, s.id, start.len()),
            !(dv.len() > 0 && !force),
            force || names_where(reap, dirty_in(views(dirty_ids@))).len() == 0,
            force || names_where(reap, listed_in(views(todo_ids@))).len() == 0,
            ids == reap.map_values(|x: SessionView| x.id),
            remove_each(start, ids.subrange(0, k as int)) == (tree@, None::<Seq<char>>),
        decreases to_reap.len() - k,
    {
        proof {
            let pre = ids.subrange(0, k + 1);
            assert(pre.drop_last() =~= ids.subrange(0, k as int));
            assert(pre.last() == to_reap@[k as int].id@);
        }
        match tree.remove(to_reap[k].id.as_str()) {
            Ok(_) => {},
            Err(e) => {
                proof {
                    lemma_remove_each_stops(start, ids, k + 1);
                }
                return Err(e);
            },
        }
        k += 1;
    }
    assert(ids.subrange(0, k as int) =~= ids);
    Ok(to_reap)
}

/// The outcome of the checks before a rename: the name must be free and the
/// session must exist; then the session's position.
pub fn rename_check(tree: &SessionTree, session_id: &str, new_name: &str) -> (r: Result<usize, EzError>)
    ensures
        if find_first(tree@, name_is(new_name@)) is Some {
            r matches Err(EzError::SessionAlreadyExists(m)) && m@ == new_name@
        } else if find_first(tree@, id_is(session_id@)) is None {
            r matches Err(EzError::SessionNotFound(m)) && m@ == session_id@
        } else {
            r matches Ok(k) && k == first_match(tree@, id_is(session_id@))
        },
{
    if tree.find_by_name(new_name).is_some() {
        return Err(EzError::SessionAlreadyExists(crate::text::owned(new_name)));
    }
    let k = tree.index_of_id(session_id);
    proof {
        lemma_first_match(tree@, id_is(session_id@));
    }
    if k >= tree.sessions.len() {
        return Err(EzError::SessionNotFound(crate::text::owned(session_id)));
    }
    Ok(k)
}

/// The directory that holds a path (`Path::parent`), as std computes it.
pub uninterp spec fn path_parent(p: Seq<char>) -> Option<Seq<char>>;

/// `Path::parent`. Its result is named, not described: a function of the
/// path's text alone.
#[verifier::external_body]
fn parent_dir(p: &str) -> (r: Option<String>)
    ensures
        opt_view(r) == path_parent(p@),
{
    std::path::Path::new(p).parent().map(|d| d.to_string_lossy().into_owned())
}

/// What renaming a session does beyond its name.
#[derive(Debug)]
pub enum RenamePlan {
    /// A bare session, or a repo without git: only the name changes.
    NameOnly,
    /// No worktree to move.
    NoPath,
    /// Rename the branch in `worktree`, then move it to `target`.
    Git { worktree: String, target: String },
}

/// Where a renamed worktree goes: beside the old one, under the new name.
pub open spec fn renamed_worktree(worktree: Seq<char>, new_name: Seq<char>) -> Seq<char> {
    match path_parent(worktree) {
        Some(d) => crate::paths::join(d, new_name),
        None => new_name,
    }
}

/// `plan` is what renaming `s` to `new_name` asks beyond the name: nothing
/// for a bare session or a repo without git; no move without a worktree;
/// else the worktree moves beside itself under the new name.
pub open spec fn is_rename_plan(s: SessionView, new_name: Seq<char>, is_git: bool, plan: RenamePlan) -> bool {
    if s.bare || !is_git {
        plan is NameOnly
    } else {
        match s.path {
            None => plan is NoPath,
            Some(p) => plan matches RenamePlan::Git { worktree, target } && worktree@ == p
                && target@ == renamed_worktree(p, new_name),
        }
    }
}

/// Renames the session and says what else has to happen.
pub fn perform_session_rename(session: &mut Session, new_name: &str, is_git: bool) -> (r: RenamePlan)
    ensures
        final(session)@ == (SessionView { name: new_name@, ..old(session)@ }),
        is_rename_plan(old(session)@, new_name@, is_git, r),
{
    session.name = crate::text::owned(new_name);
    if session.bare || !is_git {
        return RenamePlan::NameOnly;
    }
    match &session.path {
        None => RenamePlan::NoPath,
        Some(p) => {
            let target = match parent_dir(p.as_str()) {
                Some(d) => crate::paths::join_path(d.as_str(), new_name),
                None => crate::text::owned(new_name),
            };
            RenamePlan::Git { worktree: p.clone(), target }
        },
    }
}

/// The session's paths before and after a rename.
#[derive(Debug)]
pub struct RenameResult {
    pub old_path: Option<String>,
    pub new_path: Option<String>,
}

/// Record the outcome of moving the worktree: a moved worktree gives the
/// session its new path.
pub fn finish_session_rename(session: &mut Session, plan: &RenamePlan, moved: bool) -> (r: RenameResult)
    ensures
        match plan {
            RenamePlan::NameOnly => final(session)@ == old(session)@ && opt_view(r.old_path)
                == old(session)@.path && opt_view(r.new_path) == old(session)@.path,
            RenamePlan::NoPath => final(session)@ == old(session)@ && r.old_path is None
                && r.new_path is None,
            RenamePlan::Git { worktree, target } => if moved {
                final(session)@ == (SessionView { path: Some(target@), ..old(session)@ })
                    && opt_view(r.old_path) == Some(worktree@) && opt_view(r.new_path) == Some(
                    target@,
                )
            } else {
                final(session)@ == old(session)@ && opt_view(r.old_path) == Some(worktree@)
                    && opt_view(r.new_path) == old(session)@.path
            },
        },
{
    match plan {
        RenamePlan::NameOnly => RenameResult {
            old_path: session.path.clone(),
            new_path: session.path.clone(),
        },
        RenamePlan::NoPath => RenameResult { old_path: None, new_path: None },
        RenamePlan::Git { worktree, target } => {
            if moved {
                session.path = Some(target.clone());
                RenameResult { old_path: Some(worktree.clone()), new_path: Some(target.clone()) }
            } else {
                RenameResult { old_path: Some(worktree.clone()), new_path: session.path.clone() }
            }
        },
    }
}

/// Rename the session with this ID in the tree; an error when the new name
/// is taken or no session has the ID, the tree then unchanged. Returns what
/// else has to happen.
pub fn rename_session_by_id(tree: &mut SessionTree, session_id: &str, new_name: &str, is_git: bool) -> (r:
    Result<RenamePlan, EzError>)
    ensures
        if find_first(old(tree)@, name_is(new_name@)) is Some {
            (r matches Err(EzError::SessionAlreadyExists(m)) && m@ == new_name@) && final(tree)@
                == old(tree)@
        } else if find_first(old(tree)@, id_is(session_id@)) is None {
            (r matches Err(EzError::SessionNotFound(m)) && m@ == session_id@) && final(tree)@
                == old(tree)@
        } else {
            let k = first_match(old(tree)@, id_is(session_id@));
            (r matches Ok(plan) && is_rename_plan(old(tree)@[k], new_name@, is_git, plan))
                && final(tree)@ == old(tree)@.update(k, SessionView { name: new_name@, ..old(tree)@[k] })
        },
{
    let k = match rename_check(tree, session_id, new_name) {
        Ok(k) => k,
        Err(e) => {
            return Err(e);
        },
    };
    let mut s = tree.sessions[k].copy();
    assert(s@ == old(tree)@[k as int]);
    let plan = perform_session_rename(&mut s, new_name, is_git);
    let ghost sv = s@;
    tree.sessions.set(k, s);
    assert(tree@ =~= old(tree)@.update(k as int, sv));
    Ok(plan)
}

/// A fresh session ID (`Uuid::new_v4`, as text). It is random, so nothing
/// is stated of it.
#[verifier::external_body]
pub(crate) fn new_session_id() -> (r: String) {
    uuid::Uuid::new_v4().to_string()
}

/// The current time in RFC 3339 (`chrono::Utc::now().to_rfc3339()`). It reads
/// the clock, so nothing is stated of it.
#[verifier::external_body]
pub(crate) fn now_rfc3339() -> (r: String) {
    chrono::Utc::now().to_rfc3339()
}

/// A new session as the tree first records it.
pub open spec fn fresh_session(
    id: Seq<char>,
    name: Seq<char>,
    parent_id: Option<Seq<char>>,
    path: Option<Seq<char>>,
    env: Seq<(Seq<char>, Seq<char>)>,
    created_at: Seq<char>,
    is_default: bool,
    bare: bool,
) -> SessionView {
    SessionView {
        id: id,
        name: name,
        parent_id: parent_id,
        path: path,
        env: env,
        plugin_state: Seq::empty(),
        labels: Seq::empty(),
        created_at: created_at,
        is_default: is_default,
        bare: bare,
        last_accessed: None,
    }
}

/// The repo a new session is created in, looked up by ID, and the check that
/// the session name is free.
pub fn new_child_check(
    index: &crate::repo::model::RepoIndex,
    tree: &SessionTree,
    repo_id: &str,
    name: &str,
) -> (r: Result<usize, EzError>)
    ensures
        ({
            let k = first_match(index.repos@, crate::repo::model::repo_id_is(repo_id@));
            if k >= index.repos@.len() {
                r matches Err(EzError::RepoNotFound(m)) && m@ == repo_id@
            } else if find_first(tree@, name_is(name@)) is Some {
                r matches Err(EzError::SessionAlreadyExists(m)) && m@ == name@
            } else {
                r == Ok::<usize, EzError>(k as usize)
            }
        }),
{
    let mut k: usize = 0;
    while k < index.repos.len() && !crate::text::str_eq(index.repos[k].id.as_str(), repo_id)
        invariant
            k <= index.repos@.len(),
            forall|j: int|
                0 <= j < k ==> !crate::repo::model::repo_id_is(repo_id@)(
                    #[trigger] index.repos@[j],
                ),
        decreases index.repos.len() - k,
    {
        k += 1;
    }
    proof {
        crate::search::lemma_first_match_is(
            index.repos@,
            crate::repo::model::repo_id_is(repo_id@),
            k as int,
        );
    }
    if k >= index.repos.len() {
        return Err(EzError::RepoNotFound(crate::text::owned(repo_id)));
    }
    if tree.find_by_name(name).is_some() {
        return Err(EzError::SessionAlreadyExists(crate::text::owned(name)));
    }
    Ok(k)
}

/// Add a child session under `parent_id`; in a repository without git it
/// takes the repo's directory as its path. Errors as `SessionTree::add`
/// does, the tree then unchanged. Returns the session as recorded.
pub fn add_child_session(
    tree: &mut SessionTree,
    repo_path: &str,
    repo_is_git: bool,
    parent_id: &str,
    name: &str,
    bare: bool,
    env: Vec<(String, String)>,
    id: String,
    created_at: String,
) -> (r: Result<Session, EzError>)
    ensures
        ({
            let s = fresh_session(
                id@,
                name@,
                Some(parent_id@),
                if !bare && !repo_is_git {
                    Some(repo_path@)
                } else {
                    None
                },
                crate::session::model::pairs_view(env@),
                created_at@,
                false,
                bare,
            );
            if find_first(old(tree)@, name_is(name@)) is Some {
                (r matches Err(EzError::SessionAlreadyExists(n)) && n@ == name@) && final(tree)@
                    == old(tree)@
            } else if find_first(old(tree)@, id_is(parent_id@)) is None {
                (r matches Err(EzError::SessionNotFound(m)) && m@ == "parent session '"@
                    + parent_id@ + "' not found"@) && final(tree)@ == old(tree)@
            } else {
                r matches Ok(c) && c@ == s && final(tree)@ == old(tree)@.push(s)
            }
        }),
{
    let path = if !bare && !repo_is_git {
        Some(crate::text::owned(repo_path))
    } else {
        None
    };
    let session = Session {
        id,
        name: crate::text::owned(name),
        parent_id: Some(crate::text::owned(parent_id)),
        path,
        env,
        plugin_state: Vec::new(),
        labels: Vec::new(),
        created_at,
        is_default: false,
        bare,
        last_accessed: None,
    };
    assert(session@.plugin_state =~= Seq::<(Seq<char>, Seq<char>)>::empty());
    assert(session@.labels =~= Seq::<Seq<char>>::empty());
    let created = session.copy();
    match tree.add(session) {
        Ok(()) => Ok(created),
        Err(e) => Err(e),
    }
}

/// Create a child session with a fresh ID and the current time (see
/// `add_child_session`).
pub fn create_child_session(
    tree: &mut SessionTree,
    repo_path: &str,
    repo_is_git: bool,
    parent_id: &str,
    name: &str,
    bare: bool,
    env: Vec<(String, String)>,
) -> (r: Result<Session, EzError>)
    ensures
        if find_first(old(tree)@, name_is(name@)) is Some {
            (r matches Err(EzError::SessionAlreadyExists(n)) && n@ == name@) && final(tree)@
                == old(tree)@
        } else if find_first(old(tree)@, id_is(parent_id@)) is None {
            (r matches Err(EzError::SessionNotFound(m)) && m@ == "parent session '"@ + parent_id@
                + "' not found"@) && final(tree)@ == old(tree)@
        } else {
            r matches Ok(c) && c@ == fresh_session(
                c@.id,
                name@,
                Some(parent_id@),
                if !bare && !repo_is_git {
                    Some(repo_path@)
                } else {
                    None
                },
                crate::session::model::pairs_view(env@),
                c@.created_at,
                false,
                bare,
            ) && final(tree)@ == old(tree)@.push(c@)
        },
{
    let id = new_session_id();
    let now = now_rfc3339();
    add_child_session(tree, repo_path, repo_is_git, parent_id, name, bare, env, id, now)
}

/// Add a new session, under `parent_id` or at the root; in a repository
/// without git a session that is not bare takes the repo's directory as its
/// path. Errors as `SessionTree::add` does, the tree then unchanged. Returns
/// the session as recorded.
pub fn add_session(
    tree: &mut SessionTree,
    repo_path: &str,
    repo_is_git: bool,
    parent_id: Option<&str>,
    name: &str,
    bare: bool,
    env: Vec<(String, String)>,
    id: String,
    created_at: String,
) -> (r: Result<Session, EzError>)
    ensures
        ({
            let pid = match parent_id {
                Some(p) => Some(p@),
                None => None,
            };
            let s = fresh_session(
                id@,
                name@,
                pid,
                if !bare && !repo_is_git {
                    Some(repo_path@)
                } else {
                    None
                },
                crate::session::model::pairs_view(env@),
                created_at@,
                false,
                bare,
            );
            if find_first(old(tree)@, name_is(name@)) is Some {
                (r matches Err(EzError::SessionAlreadyExists(n)) && n@ == name@) && final(tree)@
                    == old(tree)@
            } else if pid matches Some(p) && find_first(old(tree)@, id_is(p)) is None {
                (r matches Err(EzError::SessionNotFound(m)) && m@ == "parent session '"@ + pid->0
                    + "' not found"@) && final(tree)@ == old(tree)@
            } else {
                r matches Ok(c) && c@ == s && final(tree)@ == old(tree)@.push(s)
            }
        }),
{
    let path = if !bare && !repo_is_git {
        Some(crate::text::owned(repo_path))
    } else {
        None
    };
    let parent = match parent_id {
        Some(p) => Some(crate::text::owned(p)),
        None => None,
    };
    let session = Session {
        id,
        name: crate::text::owned(name),
        parent_id: parent,
        path,
        env,
        plugin_state: Vec::new(),
        labels: Vec::new(),
        created_at,
        is_default: false,
        bare,
        last_accessed: None,
    };
    assert(session@.plugin_state =~= Seq::<(Seq<char>, Seq<char>)>::empty());
    assert(session@.labels =~= Seq::<Seq<char>>::empty());
    let created = session.copy();
    match tree.add(session) {
        Ok(()) => Ok(created),
        Err(e) => Err(e),
    }
}

/// Create a session with a fresh ID and the current time (see
/// `add_session`).
pub fn create_session(
    tree: &mut SessionTree,
    repo_path: &str,
    repo_is_git: bool,
    parent_id: Option<&str>,
    name: &str,
    bare: bool,
    env: Vec<(String, String)>,
) -> (r: Result<Session, EzError>)
    ensures
        if find_first(old(tree)@, name_is(name@)) is Some {
            (r matches Err(EzError::SessionAlreadyExists(n)) && n@ == name@) && final(tree)@
                == old(tree)@
        } else if parent_id matches Some(p) && find_first(old(tree)@, id_is(p@)) is None {
            (r matches Err(EzError::SessionNotFound(m)) && m@ == "parent session '"@
                + parent_id.unwrap()@ + "' not found"@) && final(tree)@ == old(tree)@
        } else {
            r matches Ok(c) && c@ == fresh_session(
                c@.id,
                name@,
                match parent_id {
                    Some(p) => Some(p@),
                    None => None,
                },
                if !bare && !repo_is_git {
                    Some(repo_path@)
                } else {
                    None
                },
                crate::session::model::pairs_view(env@),
                c@.created_at,
                false,
                bare,
            ) && final(tree)@ == old(tree)@.push(c@)
        },
{
    let id = new_session_id();
    let now = now_rfc3339();
    add_session(tree, repo_path, repo_is_git, parent_id, name, bare, env, id, now)
}

/// The default session of a repository: `main`, at the repo's directory.
pub fn ensure_default_session_with(tree: &mut SessionTree, repo_path: &str, id: String, created_at: String) -> (r:
    bool)
    ensures
        r == (old(tree)@.len() == 0),
        r ==> final(tree)@ == seq![
            fresh_session(id@, "main"@, None, Some(repo_path@), Seq::empty(), created_at@, true, false),
        ],
        !r ==> final(tree)@ == old(tree)@,
{
    if tree.sessions.len() > 0 {
        return false;
    }
    let session = Session {
        id,
        name: crate::text::owned("main"),
        parent_id: None,
        path: Some(crate::text::owned(repo_path)),
        env: Vec::new(),
        plugin_state: Vec::new(),
        labels: Vec::new(),
        created_at,
        is_default: true,
        bare: false,
        last_accessed: None,
    };
    let ghost sv = session@;
    assert(sv.env =~= Seq::<(Seq<char>, Seq<char>)>::empty());
    assert(sv.plugin_state =~= Seq::<(Seq<char>, Seq<char>)>::empty());
    assert(sv.labels =~= Seq::<Seq<char>>::empty());
    tree.sessions.push(session);
    assert(tree@ =~= seq![sv]);
    true
}

/// Ensure a repo has at least a default "main" session, pointing to the
/// repo's working directory; says whether one was created.
pub fn ensure_default_session(tree: &mut SessionTree, repo_path: &str) -> (r: bool)
    ensures
        r == (old(tree)@.len() == 0),
        r ==> final(tree)@.len() == 1 && final(tree)@[0].name == "main"@ && final(tree)@[0].is_default
            && final(tree)@[0].path == Some(repo_path@) && final(tree)@[0].parent_id is None,
        !r ==> final(tree)@ == old(tree)@,
{
    if tree.sessions.len() > 0 {
        return false;
    }
    let id = new_session_id();
    let now = now_rfc3339();
    ensure_default_session_with(tree, repo_path, id, now)
}

/// `s` with its last access set.
pub open spec fn touched(s: SessionView, at: Seq<char>) -> SessionView {
    SessionView { last_accessed: Some(at), ..s }
}

/// Record that the session with this ID was entered at `now`; whether it
/// was there (the tree is unchanged when it was not).
pub fn touch_session(tree: &mut SessionTree, session_id: &str, now: &str) -> (r: bool)
    ensures
        ({
            let k = first_match(old(tree)@, id_is(session_id@));
            &&& r == (k < old(tree)@.len())
            &&& r ==> final(tree)@ == old(tree)@.update(k, touched(old(tree)@[k], now@))
            &&& !r ==> final(tree)@ == old(tree)@
        }),
{
    proof {
        crate::search::lemma_first_match(old(tree)@, id_is(session_id@));
    }
    let k = tree.index_of_id(session_id);
    if k >= tree.sessions.len() {
        return false;
    }
    let mut s = tree.sessions[k].copy();
    s.last_accessed = Some(crate::text::owned(now));
    let ghost sv = s@;
    tree.sessions.set(k, s);
    assert(tree@ =~= old(tree)@.update(k as int, sv));
    true
}

/// After a session is renamed to a name no session had, looking that name
/// up finds the renamed session.
pub proof fn law_rename_then_find(t: Seq<SessionView>, k: int, new_name: Seq<char>)
    requires
        0 <= k < t.len(),
        find_first(t, name_is(new_name)) is None,
    ensures
        find_first(t.update(k, SessionView { name: new_name, ..t[k] }), name_is(new_name)) == Some(
            SessionView { name: new_name, ..t[k] },
        ),
{
    let u = t.update(k, SessionView { name: new_name, ..t[k] });
    crate::search::lemma_first_match(t, name_is(new_name));
    assert forall|j: int| 0 <= j < k implies !(name_is(new_name))(#[trigger] u[j]) by {
        assert(u[j] == t[j]);
        assert(!(name_is(new_name))(t[j]));
    }
    crate::search::lemma_first_match_is(u, name_is(new_name), k);
}

/// No two sessions share an ID.
pub open spec fn ids_unique(t: Seq<SessionView>) -> bool {
    forall|i: int, j: int| 0 <= i < j < t.len() ==> (#[trigger] t[i]).id != (#[trigger] t[j]).id
}

/// Some session has this ID.
pub open spec fn has_id(t: Seq<SessionView>, id: Seq<char>) -> bool {
    exists|j: int| 0 <= j < t.len() && (#[trigger] t[j]).id == id
}

/// Removing the sessions of a cascade one by one, as deletion does, in a
/// tree whose IDs are unique: when every removal finds its session, none of
/// the removed IDs is left, no other session appears, and the IDs stay unique.
pub proof fn law_removed_sessions_are_gone(t: Seq<SessionView>, ids: Seq<Seq<char>>)
    requires
        ids_unique(t),
        remove_each(t, ids).1 is None,
    ensures
        ids_unique(remove_each(t, ids).0),
        forall|x: Seq<char>| has_id(remove_each(t, ids).0, x) ==> has_id(t, x),
        forall|i: int| 0 <= i < ids.len() ==> !has_id(remove_each(t, ids).0, #[trigger] ids[i]),
    decreases ids.len(),
{
    if ids.len() > 0 {
        let (t2, failed) = remove_each(t, ids.drop_last());
        assert(failed is None);
        law_removed_sessions_are_gone(t, ids.drop_last());
        let last = ids.last();
        crate::search::lemma_first_match(t2, id_is(last));
        let k = first_match(t2, id_is(last));
        assert(k < t2.len());
        let r = t2.remove(k);
        assert(remove_each(t, ids).0 == r);
        assert forall|i: int, j: int| 0 <= i < j < r.len() implies (#[trigger] r[i]).id != (#[trigger] r[j]).id by {
            let a = if i < k { i } else { i + 1 };
            let b = if j < k { j } else { j + 1 };
            assert(r[i] == t2[a] && r[j] == t2[b] && a < b);
        }
        assert forall|x: Seq<char>| has_id(r, x) implies has_id(t, x) by {
            let j = choose|j: int| 0 <= j < r.len() && (#[trigger] r[j]).id == x;
            let a = if j < k { j } else { j + 1 };
            assert(r[j] == t2[a]);
            assert(has_id(t2, x));
        }
        assert forall|i: int| 0 <= i < ids.len() implies !has_id(r, #[trigger] ids[i]) by {
            if has_id(r, ids[i]) {
                let j = choose|j: int| 0 <= j < r.len() && (#[trigger] r[j]).id == ids[i];
                let a = if j < k { j } else { j + 1 };
                assert(r[j] == t2[a]);
                if i < ids.len() - 1 {
                    assert(ids.drop_last()[i] == ids[i]);
                    assert(has_id(t2, ids[i]));
                } else {
                    assert(t2[k].id == last);
                    assert(a != k);
                }
            }
        }
    }
}

} // verus!
