//! Pull-request metadata kept in a session's environment: when it is looked
//! up, when it counts as stale, and how a lookup's answer is recorded.
//!
//! The keys are `ez_pr_number`, `ez_pr_url`, `ez_pr_status`,
//! `ez_pr_status_updated` (RFC 3339) and `ez_pr_gh_user`.
use vstd::prelude::*;

use super::env::{env_get, env_value, set_session_env, with_env};
use super::model::{copy_pairs, opt_view, pairs_view, SessionTree, SessionView};
use super::tree::id_is;
use crate::browser::{parse_rfc3339_millis, rfc3339_millis};
use crate::paths::{to_lowercase, unicode_lowercase};
use crate::plugin::{put_pair, set_pair};
use crate::search::{find_first, first_match, lemma_first_match};
use crate::text::{decimal, decimal_string};

verus! {

/// How long a fetched PR status stays fresh, in milliseconds (five minutes).
pub const PR_STATUS_TTL_MILLIS: i64 = 300_000;

/// Whether a PR status fetched at `updated` must be fetched again at the
/// instant `now` (milliseconds since the epoch): never fetched, an
/// unreadable stamp, or five minutes or more ago.
pub open spec fn pr_stale(updated: Option<Seq<char>>, now: int) -> bool {
    match updated {
        Some(u) => match rfc3339_millis(u) {
            Some(t) => now - t >= PR_STATUS_TTL_MILLIS,
            None => true,
        },
        None => true,
    }
}

/// What a status refresh of session `id` asks the PR host about at `now`:
/// the PR's URL, else its number; nothing when the session is missing, has
/// no PR, or its status is fresh.
pub open spec fn pr_refresh_target(t: Seq<SessionView>, id: Seq<char>, now: int) -> Option<Seq<char>> {
    match find_first(t, id_is(id)) {
        Some(s) => match env_get(s.env, "ez_pr_number"@) {
            Some(n) => if pr_stale(env_get(s.env, "ez_pr_status_updated"@), now) {
                match env_get(s.env, "ez_pr_url"@) {
                    Some(u) => Some(u),
                    None => Some(n),
                }
            } else {
                None
            },
            None => None,
        },
        None => None,
    }
}

/// The environment after a status lookup answered `state` at `stamp`.
pub open spec fn with_status(
    env: Seq<(Seq<char>, Seq<char>)>,
    state: Seq<char>,
    stamp: Seq<char>,
) -> Seq<(Seq<char>, Seq<char>)> {
    set_pair(set_pair(env, "ez_pr_status"@, unicode_lowercase(state)), "ez_pr_status_updated"@, stamp)
}

/// The environment after a PR was found for the session's branch.
pub open spec fn with_detected(
    env: Seq<(Seq<char>, Seq<char>)>,
    number: nat,
    url: Seq<char>,
    state: Seq<char>,
    stamp: Seq<char>,
    gh_user: Option<Seq<char>>,
) -> Seq<(Seq<char>, Seq<char>)> {
    let e = with_status(
        set_pair(set_pair(env, "ez_pr_number"@, decimal(number)), "ez_pr_url"@, url),
        state,
        stamp,
    );
    match gh_user {
        Some(u) => set_pair(e, "ez_pr_gh_user"@, u),
        None => e,
    }
}

/// Whether the PR status recorded in this environment is stale at `now`.
pub fn pr_status_stale(env: &Vec<(String, String)>, now: i64) -> (r: bool)
    ensures
        r == pr_stale(env_get(pairs_view(env@), "ez_pr_status_updated"@), now as int),
{
    match env_value(env, "ez_pr_status_updated") {
        Some(u) => match parse_rfc3339_millis(u.as_str()) {
            Some(t) => (now as i128) - (t as i128) >= PR_STATUS_TTL_MILLIS as i128,
            None => true,
        },
        None => true,
    }
}

/// What to ask the PR host to refresh the status of session `session_id`
/// at the instant `now` (milliseconds), if anything.
pub fn pr_refresh_request(tree: &SessionTree, session_id: &str, now: i64) -> (r: Option<String>)
    ensures
        opt_view(r) == pr_refresh_target(tree@, session_id@, now as int),
{
    let s = match tree.find_by_id(session_id) {
        Some(s) => s,
        None => return None,
    };
    let n = match env_value(&s.env, "ez_pr_number") {
        Some(n) => n,
        None => return None,
    };
    if !pr_status_stale(&s.env, now) {
        return None;
    }
    match env_value(&s.env, "ez_pr_url") {
        Some(u) => Some(u.clone()),
        None => Some(n.clone()),
    }
}

/// Replace the environment of the session at position `k`.
fn put_env_at(tree: &mut SessionTree, k: usize, env: Vec<(String, String)>)
    requires
        k < old(tree)@.len(),
    ensures
        final(tree)@ == old(tree)@.update(k as int, with_env(old(tree)@[k as int], pairs_view(env@))),
{
    let mut s = tree.sessions[k].copy();
    s.env = env;
    let ghost sv = s@;
    tree.sessions.set(k, s);
    assert(tree@ =~= old(tree)@.update(k as int, sv));
}

/// Record a fetched PR state (lower-cased) and the instant `stamp` it was
/// fetched on the session with this ID; whether the session was there.
pub fn record_pr_status(tree: &mut SessionTree, session_id: &str, state: &str, stamp: &str) -> (r: bool)
    ensures
        ({
            let k = first_match(old(tree)@, id_is(session_id@));
            &&& r == (k < old(tree)@.len())
            &&& r ==> final(tree)@ == old(tree)@.update(
                k,
                with_env(old(tree)@[k], with_status(old(tree)@[k].env, state@, stamp@)),
            )
            &&& !r ==> final(tree)@ == old(tree)@
        }),
{
    proof {
        lemma_first_match(old(tree)@, id_is(session_id@));
    }
    let k = tree.index_of_id(session_id);
    if k >= tree.sessions.len() {
        return false;
    }
    let mut env = copy_pairs(&tree.sessions[k].env);
    let lower = to_lowercase(state);
    put_pair(&mut env, "ez_pr_status", lower.as_str());
    put_pair(&mut env, "ez_pr_status_updated", stamp);
    put_env_at(tree, k, env);
    true
}

/// Record a PR found for the session's branch: its number and URL, its
/// state (lower-cased; `open` when the host gave none), the instant `stamp`,
/// and the host user, when known. Nothing is recorded unless both the number
/// and the URL are known; the result says whether they were.
pub fn record_detected_pr(
    tree: &mut SessionTree,
    session_id: &str,
    number: Option<u64>,
    url: Option<&str>,
    state: Option<&str>,
    stamp: &str,
    gh_user: Option<&str>,
) -> (r: bool)
    ensures
        r == (number is Some && url is Some),
        ({
            let k = first_match(old(tree)@, id_is(session_id@));
            if r && k < old(tree)@.len() {
                final(tree)@ == old(tree)@.update(
                    k,
                    with_env(
                        old(tree)@[k],
                        with_detected(
                            old(tree)@[k].env,
                            number.unwrap() as nat,
                            url.unwrap()@,
                            match state {
                                Some(s) => s@,
                                None => "open"@,
                            },
                            stamp@,
                            match gh_user {
                                Some(u) => Some(u@),
                                None => None,
                            },
                        ),
                    ),
                )
            } else {
                final(tree)@ == old(tree)@
            }
        }),
{
    proof {
        lemma_first_match(old(tree)@, id_is(session_id@));
    }
    let (n, u) = match (number, url) {
        (Some(n), Some(u)) => (n, u),
        _ => return false,
    };
    let k = tree.index_of_id(session_id);
    if k >= tree.sessions.len() {
        return true;
    }
    let mut env = copy_pairs(&tree.sessions[k].env);
    let digits = decimal_string(n as u128);
    put_pair(&mut env, "ez_pr_number", digits.as_str());
    put_pair(&mut env, "ez_pr_url", u);
    let lower = match state {
        Some(s) => to_lowercase(s),
        None => to_lowercase("open"),
    };
    put_pair(&mut env, "ez_pr_status", lower.as_str());
    put_pair(&mut env, "ez_pr_status_updated", stamp);
    match gh_user {
        Some(g) => put_pair(&mut env, "ez_pr_gh_user", g),
        None => {},
    }
    put_env_at(tree, k, env);
    true
}

/// Whether a PR is looked up for this session's branch: the session is in
/// a git repository, has a worktree path, is neither bare nor the default
/// session, and has no PR recorded yet.
pub open spec fn wants_pr_lookup(s: SessionView, is_git: bool) -> bool {
    &&& !s.bare
    &&& !s.is_default
    &&& is_git
    &&& env_get(s.env, "ez_pr_number"@) is None
    &&& s.path is Some
}

/// The worktree whose branch to look a PR up for, when session `session_id`
/// wants a lookup (the caller still checks that the path exists and is on a
/// branch).
pub fn pr_lookup_path(tree: &SessionTree, session_id: &str, is_git: bool) -> (r: Option<String>)
    ensures
        match find_first(tree@, id_is(session_id@)) {
            Some(s) => if wants_pr_lookup(s, is_git) {
                opt_view(r) == s.path
            } else {
                r is None
            },
            None => r is None,
        },
{
    let s = match tree.find_by_id(session_id) {
        Some(s) => s,
        None => return None,
    };
    if s.bare || s.is_default || !is_git {
        return None;
    }
    if env_value(&s.env, "ez_pr_number").is_some() {
        return None;
    }
    match &s.path {
        Some(p) => Some(p.clone()),
        None => None,
    }
}

/// What the background refresher does with one candidate session.
#[derive(Debug, PartialEq, Eq, Structural)]
pub enum CandidateStep {
    /// The session is gone.
    Missing,
    /// The PR was recorded for another host user.
    OtherUser,
    /// Refresh; `backfill` says the host user is to be recorded as well.
    Refresh { backfill: bool },
}

/// What to do with session `id` when the current host user is `user`.
pub open spec fn candidate_step_of(t: Seq<SessionView>, id: Seq<char>, user: Seq<char>) -> CandidateStep {
    match find_first(t, id_is(id)) {
        Some(s) => match env_get(s.env, "ez_pr_gh_user"@) {
            Some(u) => if u == user {
                CandidateStep::Refresh { backfill: false }
            } else {
                CandidateStep::OtherUser
            },
            None => CandidateStep::Refresh { backfill: true },
        },
        None => CandidateStep::Missing,
    }
}

/// Decide what to do with a candidate session.
pub fn candidate_step(tree: &SessionTree, session_id: &str, user: &str) -> (r: CandidateStep)
    ensures
        r == candidate_step_of(tree@, session_id@, user@),
{
    let s = match tree.find_by_id(session_id) {
        Some(s) => s,
        None => return CandidateStep::Missing,
    };
    match env_value(&s.env, "ez_pr_gh_user") {
        Some(u) => if crate::text::str_eq(u.as_str(), user) {
            CandidateStep::Refresh { backfill: false }
        } else {
            CandidateStep::OtherUser
        },
        None => CandidateStep::Refresh { backfill: true },
    }
}

/// Record the host user on the session with this ID; whether it was there.
pub fn record_gh_user(tree: &mut SessionTree, session_id: &str, user: &str) -> (r: bool)
    ensures
        ({
            let k = first_match(old(tree)@, id_is(session_id@));
            &&& r == (k < old(tree)@.len())
            &&& r ==> final(tree)@ == old(tree)@.update(
                k,
                with_env(old(tree)@[k], set_pair(old(tree)@[k].env, "ez_pr_gh_user"@, user@)),
            )
            &&& !r ==> final(tree)@ == old(tree)@
        }),
{
    proof {
        reveal_strlit("ez_pr_gh_user");
    }
    let r = set_session_env(tree, session_id, "ez_pr_gh_user", user);
    r.is_ok()
}

/// One pull request of a `gh pr list --json number,url,state` answer, with
/// the fields it had of the expected kind (a number, text, text).
pub struct PrRecord {
    pub number: Option<u64>,
    pub url: Option<String>,
    pub state: Option<String>,
}

/// The pull requests that the JSON text `out` lists, one record for each
/// element of its top-level array; nothing when `out` is not a JSON array.
pub uninterp spec fn gh_pr_list(out: Seq<u8>) -> Option<Seq<PrRecord>>;

/// `serde_json::from_slice` of the `gh pr list` output into a list of JSON
/// values, each read as a [`PrRecord`] (`number` as `u64`, `url` and
/// `state` as strings). The contract names the result as a function of the
/// bytes alone.
#[verifier::external_body]
fn gh_pr_records(out: &[u8]) -> (r: Option<Vec<PrRecord>>)
    ensures
        match r {
            Some(v) => gh_pr_list(out@) == Some(v@),
            None => gh_pr_list(out@) is None,
        },
{
    match serde_json::from_slice::<Vec<serde_json::Value>>(out) {
        Ok(prs) => Some(prs.iter().map(|pr| PrRecord {
            number: pr.get("number").and_then(|v| v.as_u64()),
            url: pr.get("url").and_then(|v| v.as_str()).map(|s| s.to_string()),
            state: pr.get("state").and_then(|v| v.as_str()).map(|s| s.to_string()),
        }).collect()),
        Err(_) => None,
    }
}

/// The pull request a `gh pr list --limit 1` answer names: its first
/// element, if the answer is a non-empty JSON array.
pub fn detected_pr(out: &[u8]) -> (r: Option<PrRecord>)
    ensures
        r == match gh_pr_list(out@) {
            Some(v) => if v.len() > 0 {
                Some(v[0])
            } else {
                None
            },
            None => None,
        },
{
    match gh_pr_records(out) {
        Some(mut v) => {
            if v.len() > 0 {
                Some(v.remove(0))
            } else {
                None
            }
        },
        None => None,
    }
}

/// Whether recording this pull request asks for the GitHub user too: only
/// a record with both a number and a URL is recorded.
pub fn needs_gh_user(p: &PrRecord) -> (r: bool)
    ensures
        r == (p.number is Some && p.url is Some),
{
    p.number.is_some() && p.url.is_some()
}

} // verus!
