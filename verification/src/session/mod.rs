//! Sessions of a repository: the tree, its rendering, and edits on it.
pub mod cascade;
pub mod current;
pub mod cursor;
pub mod env;
pub mod from_dirty;
pub mod model;
pub mod name_builder;
pub mod ops;
pub mod pr;
pub mod register;
pub mod tree;
pub mod worktree;

use vstd::prelude::*;

use crate::error::EzError;
use crate::labels::{apply_label_changes, in_changed, strictly_sorted};
use crate::search::{first_match, lemma_first_match};
use crate::text::views;
use model::{SessionTree, SessionView};
use tree::id_is;

verus! {

/// `s` with its labels replaced.
pub open spec fn with_labels(s: SessionView, labels: Seq<Seq<char>>) -> SessionView {
    SessionView { labels: labels, ..s }
}

/// Apply add/remove label changes to the session with this ID and return its
/// new label list (sorted, without repeats). Errors when no session has the
/// ID; the tree is then unchanged.
pub fn set_session_labels(
    tree: &mut SessionTree,
    session_id: &str,
    add: &[String],
    remove: &[String],
) -> (r: Result<Vec<String>, EzError>)
    ensures
        ({
            let k = first_match(old(tree)@, id_is(session_id@));
            if k < old(tree)@.len() {
                r matches Ok(v) && strictly_sorted(views(v@)) && (forall|l: Seq<char>|
                    views(v@).contains(l) <==> in_changed(
                        old(tree)@[k].labels,
                        views(add@),
                        views(remove@),
                        l,
                    )) && final(tree)@ == old(tree)@.update(k, with_labels(old(tree)@[k], views(v@)))
            } else {
                r matches Err(EzError::SessionNotFound(m)) && m@ == session_id@ && final(tree)@
                    == old(tree)@
            }
        }),
{
    let k = tree.index_of_id(session_id);
    proof {
        lemma_first_match(old(tree)@, id_is(session_id@));
    }
    if k >= tree.sessions.len() {
        return Err(EzError::SessionNotFound(crate::text::owned(session_id)));
    }
    let sorted = apply_label_changes(&tree.sessions[k].labels, add, remove);
    let mut s = tree.sessions[k].copy();
    let copy = sorted.clone();
    assert(views(copy@) =~= views(sorted@));
    s.labels = copy;
    let ghost sv = s@;
    tree.sessions.set(k, s);
    assert(tree@ =~= old(tree)@.update(k as int, sv));
    Ok(sorted)
}

} // verus!
