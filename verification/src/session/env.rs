//! Session-specific environment variables: set, unset and read them.
use vstd::prelude::*;

use super::model::{copy_pairs, pairs_view, SessionTree, SessionView};
use super::tree::id_is;
use crate::error::EzError;
use crate::plugin::{key_is, put_pair, set_pair};
use crate::search::{first_match, lemma_first_match};

verus! {

/// `s` with its environment replaced.
pub open spec fn with_env(s: SessionView, env: Seq<(Seq<char>, Seq<char>)>) -> SessionView {
    SessionView { env: env, ..s }
}

/// Entries under another key than `key`.
pub open spec fn key_is_not(key: Seq<char>) -> spec_fn((Seq<char>, Seq<char>)) -> bool {
    |p: (Seq<char>, Seq<char>)| p.0 != key
}

/// The list with every entry for `key` taken out (`HashMap::remove`).
pub open spec fn unset_pair(v: Seq<(Seq<char>, Seq<char>)>, key: Seq<char>) -> Seq<(Seq<char>, Seq<char>)> {
    v.filter(key_is_not(key))
}

/// The value stored under `key`: that of the first entry with the key.
pub open spec fn env_get(v: Seq<(Seq<char>, Seq<char>)>, key: Seq<char>) -> Option<Seq<char>> {
    let k = first_match(v, key_is(key));
    if k < v.len() {
        Some(v[k].1)
    } else {
        None
    }
}

/// The value stored under `key`, if any.
pub fn env_value<'a>(v: &'a Vec<(String, String)>, key: &str) -> (r: Option<&'a String>)
    ensures
        match r {
            Some(x) => env_get(pairs_view(v@), key@) == Some(x@),
            None => env_get(pairs_view(v@), key@) is None,
        },
{
    let ghost pv = pairs_view(v@);
    proof {
        lemma_first_match(pv, key_is(key@));
    }
    let mut i: usize = 0;
    while i < v.len()
        invariant
            i <= v@.len(),
            pv == pairs_view(v@),
            forall|j: int| 0 <= j < i ==> !(key_is(key@))(#[trigger] pv[j]),
        decreases v.len() - i,
    {
        if crate::text::str_eq(v[i].0.as_str(), key) {
            proof {
                assert((key_is(key@))(pv[i as int]));
                crate::search::lemma_first_match_is(pv, key_is(key@), i as int);
            }
            return Some(&v[i].1);
        }
        i += 1;
    }
    None
}

/// Take every entry for `key` out of the list; whether there was one.
pub fn drop_pair(v: &mut Vec<(String, String)>, key: &str) -> (r: bool)
    ensures
        pairs_view(final(v)@) == unset_pair(pairs_view(old(v)@), key@),
        r == (env_get(pairs_view(old(v)@), key@) is Some),
{
    let ghost pv = pairs_view(v@);
    proof {
        lemma_first_match(pv, key_is(key@));
    }
    let mut kept: Vec<(String, String)> = Vec::new();
    let mut found = false;
    let mut i: usize = 0;
    while i < v.len()
        invariant
            i <= v@.len(),
            pv == pairs_view(v@),
            pairs_view(kept@) == pv.subrange(0, i as int).filter(key_is_not(key@)),
            found == exists|j: int| 0 <= j < i && (key_is(key@))(#[trigger] pv[j]),
        decreases v.len() - i,
    {
        let ghost before = kept@;
        assert(pv.subrange(0, i + 1) =~= pv.subrange(0, i as int).push(pv[i as int]));
        proof {
            crate::session::tree::lemma_filter_push(pv.subrange(0, i as int), pv[i as int], key_is_not(key@));
        }
        if crate::text::str_eq(v[i].0.as_str(), key) {
            found = true;
            assert((key_is(key@))(pv[i as int]));
        } else {
            kept.push((v[i].0.clone(), v[i].1.clone()));
            assert(pairs_view(kept@) =~= pairs_view(before).push(pv[i as int]));
        }
        i += 1;
    }
    assert(pv.subrange(0, i as int) =~= pv);
    proof {
        if found {
            let j = choose|j: int| 0 <= j < pv.len() && (key_is(key@))(#[trigger] pv[j]);
            assert(first_match(pv, key_is(key@)) <= j);
        }
    }
    *v = kept;
    found
}

/// After a key is unset it has no value, and every other key keeps its value.
pub proof fn law_unset_then_get(v: Seq<(Seq<char>, Seq<char>)>, key: Seq<char>, other: Seq<char>)
    ensures
        env_get(unset_pair(v, key), key) is None,
        other != key ==> env_get(unset_pair(v, key), other) == env_get(v, other),
    decreases v.len(),
{
    let f = unset_pair(v, key);
    broadcast use vstd::seq_lib::group_filter_ensures;

    lemma_first_match(f, key_is(key));
    if first_match(f, key_is(key)) < f.len() {
        assert((key_is_not(key))(f[first_match(f, key_is(key))]));
    }
    if v.len() > 0 {
        let w = v.drop_last();
        let e = v.last();
        law_unset_then_get(w, key, other);
        assert(v =~= w.push(e));
        crate::session::tree::lemma_filter_push(w, e, key_is_not(key));
        lemma_first_match(w, key_is(other));
        lemma_first_match(v, key_is(other));
        lemma_first_match(unset_pair(w, key), key_is(other));
        lemma_first_match(f, key_is(other));
        if other != key {
            lemma_get_push(w, e, other);
            lemma_get_push(unset_pair(w, key), e, other);
        }
    }
}

/// Looking a key up after appending an entry.
proof fn lemma_get_push(v: Seq<(Seq<char>, Seq<char>)>, e: (Seq<char>, Seq<char>), key: Seq<char>)
    ensures
        env_get(v.push(e), key) == (if env_get(v, key) is Some {
            env_get(v, key)
        } else if e.0 == key {
            Some(e.1)
        } else {
            None
        }),
{
    let w = v.push(e);
    lemma_first_match(v, key_is(key));
    lemma_first_match(w, key_is(key));
    let k = first_match(v, key_is(key));
    if k < v.len() {
        crate::search::lemma_first_match_is(w, key_is(key), k);
    } else {
        assert forall|j: int| 0 <= j < v.len() implies !(key_is(key))(#[trigger] w[j]) by {
            assert(w[j] == v[j]);
        }
        if e.0 == key {
            crate::search::lemma_first_match_is(w, key_is(key), v.len() as int);
        } else {
            crate::search::lemma_first_match_is(w, key_is(key), w.len() as int);
        }
    }
}

/// Replace the environment of the session at position `k`.
fn put_env_at(tree: &mut SessionTree, k: usize, env: Vec<(String, String)>)
    requires
        k < old(tree)@.len(),
    ensures
        final(tree)@ == old(tree)@.update(k as int, with_env(old(tree)@[k as int], pairs_view(env@))),
{
    let mut s = tree.sessions[k].copy();
    s.env = env;
    let ghost sv = s@;
    tree.sessions.set(k, s);
    assert(tree@ =~= old(tree)@.update(k as int, sv));
}

/// Set `key=value` on the session with this ID (`ez session env set`). A
/// blank key is refused; an ID that no session has is an error. On an error
/// the tree is unchanged.
pub fn set_session_env(tree: &mut SessionTree, session_id: &str, key: &str, value: &str) -> (r: Result<
    (),
    EzError,
>)
    ensures
        ({
            let k = first_match(old(tree)@, id_is(session_id@));
            if key@.len() == 0 {
                r matches Err(EzError::Config(m)) && m@ == "Environment variable key cannot be empty"@
                    && final(tree)@ == old(tree)@
            } else if k < old(tree)@.len() {
                r is Ok && final(tree)@ == old(tree)@.update(
                    k,
                    with_env(old(tree)@[k], set_pair(old(tree)@[k].env, key@, value@)),
                )
            } else {
                r matches Err(EzError::SessionNotFound(m)) && m@ == session_id@ && final(tree)@
                    == old(tree)@
            }
        }),
{
    proof {
        lemma_first_match(old(tree)@, id_is(session_id@));
    }
    if key.is_empty() {
        return Err(EzError::Config(crate::text::owned("Environment variable key cannot be empty")));
    }
    let k = tree.index_of_id(session_id);
    if k >= tree.sessions.len() {
        return Err(EzError::SessionNotFound(crate::text::owned(session_id)));
    }
    let mut env = copy_pairs(&tree.sessions[k].env);
    put_pair(&mut env, key, value);
    put_env_at(tree, k, env);
    Ok(())
}

/// Remove `key` from the session with this ID (`ez session env unset`):
/// whether the key was set. An ID that no session has is an error and
/// leaves the tree unchanged.
pub fn unset_session_env(tree: &mut SessionTree, session_id: &str, key: &str) -> (r: Result<bool, EzError>)
    ensures
        ({
            let k = first_match(old(tree)@, id_is(session_id@));
            if k < old(tree)@.len() {
                r matches Ok(removed) && removed == (env_get(old(tree)@[k].env, key@) is Some)
                    && final(tree)@ == old(tree)@.update(
                    k,
                    with_env(old(tree)@[k], unset_pair(old(tree)@[k].env, key@)),
                )
            } else {
                r matches Err(EzError::SessionNotFound(m)) && m@ == session_id@ && final(tree)@
                    == old(tree)@
            }
        }),
{
    proof {
        lemma_first_match(old(tree)@, id_is(session_id@));
    }
    let k = tree.index_of_id(session_id);
    if k >= tree.sessions.len() {
        return Err(EzError::SessionNotFound(crate::text::owned(session_id)));
    }
    let mut env = copy_pairs(&tree.sessions[k].env);
    let removed = drop_pair(&mut env, key);
    put_env_at(tree, k, env);
    Ok(removed)
}

} // verus!
