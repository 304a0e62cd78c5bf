//! The checks and values of moving uncommitted changes into a new session.
use vstd::prelude::*;

use super::model::{pairs_view, Session, SessionTree};
use super::tree::name_is;
use crate::error::EzError;
use crate::search::find_first;
use crate::text::trim;

verus! {

/// The worktree whose changes move: the current session's path; a session
/// without one (a bare session) is an error.
pub fn from_dirty_worktree(current: &Session) -> (r: Result<String, EzError>)
    ensures
        match current@.path {
            Some(p) => r matches Ok(w) && w@ == p,
            None => r matches Err(EzError::Config(m)) && m@
                == "Cannot create session from dirty: current session has no worktree path (bare session)"@,
        },
{
    match &current.path {
        Some(p) => Ok(p.clone()),
        None => Err(
            EzError::Config(
                crate::text::owned(
                    "Cannot create session from dirty: current session has no worktree path (bare session)",
                ),
            ),
        ),
    }
}

/// `git status --porcelain` output with nothing in it (after trimming)
/// means there is nothing to move.
pub fn require_changes(status: &str) -> (r: Result<(), EzError>)
    ensures
        trim(status@).len() == 0 ==> (r matches Err(EzError::Config(m)) && m@
            == "No uncommitted changes to move"@),
        trim(status@).len() > 0 ==> r is Ok,
{
    let t = crate::text::trimmed(status);
    if t.as_str().unicode_len() == 0 {
        Err(EzError::Config(crate::text::owned("No uncommitted changes to move")))
    } else {
        Ok(())
    }
}

/// The message of the stash that carries the changes.
pub fn stash_message(name: &str) -> (r: String)
    ensures
        r@ == "ez: from-dirty for "@ + name@,
{
    crate::text::concat("ez: from-dirty for ", name)
}

/// The parent of the new session: the session named by `parent_arg`, else
/// the current session.
pub fn from_dirty_parent(tree: &SessionTree, parent_arg: Option<&str>, current_id: &str) -> (r: Result<
    String,
    EzError,
>)
    ensures
        match parent_arg {
            Some(p) => match find_first(tree@, name_is(p@)) {
                Some(s) => r matches Ok(id) && id@ == s.id,
                None => r matches Err(EzError::SessionNotFound(m)) && m@ == p@,
            },
            None => r matches Ok(id) && id@ == current_id@,
        },
{
    match parent_arg {
        Some(p) => match tree.find_by_name(p) {
            Some(s) => Ok(s.id.clone()),
            None => Err(EzError::SessionNotFound(crate::text::owned(p))),
        },
        None => Ok(crate::text::owned(current_id)),
    }
}

/// The environment of the new session: the commit its worktree starts from.
pub fn start_point_env(head_commit: &str) -> (r: Vec<(String, String)>)
    ensures
        pairs_view(r@) == seq![("ez_start_point"@, head_commit@)],
{
    let mut v: Vec<(String, String)> = Vec::new();
    v.push((crate::text::owned("ez_start_point"), crate::text::owned(head_commit)));
    assert(pairs_view(v@) =~= seq![("ez_start_point"@, head_commit@)]);
    v
}

/// Where the stash that carries the changes is popped after the attempt to
/// create the new session.
#[derive(Debug)]
pub enum StashPop {
    /// The session was not created: the changes go back to where they came from.
    Restore(String),
    /// The changes move into the new session's worktree.
    Move(String),
    /// The new session has no worktree: the stash is kept.
    Keep,
}

/// The step after creating the session from dirty changes: a failed
/// creation restores the stash in `worktree`; a created session pops it in
/// its own worktree, or keeps it when it has none.
pub fn stash_pop_after(worktree: &str, created: bool, new_path: Option<&str>) -> (r: StashPop)
    ensures
        !created ==> (r matches StashPop::Restore(w) && w@ == worktree@),
        created ==> match new_path {
            Some(p) => r matches StashPop::Move(w) && w@ == p@,
            None => r is Keep,
        },
{
    if !created {
        return StashPop::Restore(crate::text::owned(worktree));
    }
    match new_path {
        Some(p) => StashPop::Move(crate::text::owned(p)),
        None => StashPop::Keep,
    }
}

} // verus!
